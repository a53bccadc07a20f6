//! Binance.

use vstd::prelude::*;
use vstd::string::*;

use super::fields::{
    coin, is_ladder, is_no_number, is_qty, is_time, is_written,
    law_fields_are_read_as_what_they_say, law_ladders_are_read_level_by_level, lemma_holds,
    lemma_lacks, lemma_table_of_coins, stands_for,
};
use super::util::{
    dec, dec_of, dec_or_zero, dec_or_zero_of, ladder, ladder_of, lookup, pairs, s, s_of, sym_lookup,
    ts, ts_of,
};
use super::{records, stamped, texts, ExchangeSpec, ParsedRecord, RecordView};
use crate::decimal::{Decimal, DecimalView};
use crate::json::{
    all_plain, each_in_quotes, is_plain, json_text, list_text, parse_json, quoted_list, texts_of,
    Json, JsonView,
};
use crate::seqs::at_most_one;
use crate::numbers::{int_text, push_int};
use crate::text::{
    before, contains, contains_text, law_until_stops_at_the_first, to_upper, until, uppercase,
};
use crate::types::{
    BboRecord, BboView, BookRecord, BookView, Exchange, Level, TradeRecord, TradeSide, TradeView,
};

verus! {

/// Binance's names of the symbols.
pub const SYM: [(&'static str, &'static str); 5] = [
    ("btcusdt", "btc/usd"),
    ("ethusdt", "eth/usd"),
    ("solusdt", "sol/usd"),
    ("xrpusdt", "xrp/usd"),
    ("dogeusdt", "doge/usd"),
];

/// The best quotes of a `bookTicker` frame. It carries no time of its own.
pub open spec fn book_ticker_of(symbol: Seq<char>, data: JsonView, recv_ms: i64) -> Option<
    RecordView,
> {
    match (dec_of(data.at("b"@)), dec_of(data.at("a"@))) {
        (Some(bid), Some(ask)) => Some(
            RecordView::Bbo(
                BboView {
                    exchange: Exchange::Binance,
                    symbol,
                    ts_ex: recv_ms,
                    recv_ms,
                    bid,
                    bid_qty: dec_or_zero_of(data.at("B"@)),
                    ask,
                    ask_qty: dec_or_zero_of(data.at("A"@)),
                },
            ),
        ),
        _ => None,
    }
}

/// The taker's side: `m` says whether the *maker* bought.
pub open spec fn taker_of(m: JsonView) -> TradeSide {
    if m.as_bool() == Some(true) {
        TradeSide::Sell
    } else {
        TradeSide::Buy
    }
}

/// The trade of an `aggTrade` frame.
pub open spec fn agg_trade_of(symbol: Seq<char>, data: JsonView, recv_ms: i64) -> Option<
    RecordView,
> {
    match dec_of(data.at("p"@)) {
        Some(price) => Some(
            RecordView::Trade(
                TradeView {
                    exchange: Exchange::Binance,
                    symbol,
                    ts_ex: ts_of(data.at("T"@), recv_ms),
                    recv_ms,
                    price,
                    qty: dec_or_zero_of(data.at("q"@)),
                    side: taker_of(data.at("m"@)),
                    trade_id: s_of(data.at("a"@)),
                },
            ),
        ),
        None => None,
    }
}

/// The change of the book of a `depth` frame: never a snapshot.
pub open spec fn depth_of(symbol: Seq<char>, data: JsonView, recv_ms: i64) -> RecordView {
    RecordView::Book(
        BookView {
            exchange: Exchange::Binance,
            symbol,
            ts_ex: ts_of(data.at("T"@), recv_ms),
            recv_ms,
            bids: ladder_of(data.at("b"@)),
            asks: ladder_of(data.at("a"@)),
            is_snapshot: false,
            seq: data.at("u"@).as_u64(),
            first_seq: data.at("U"@).as_u64(),
        },
    )
}

/// The records of a message.
pub open spec fn records_of(msg: JsonView, recv_ms: i64) -> Seq<RecordView> {
    match msg.at("stream"@).as_str() {
        Some(stream) => match lookup(pairs(SYM@), until(stream, '@')) {
            Some(symbol) => {
                let data = msg.at("data"@);
                if contains_text(stream, "bookTicker"@) {
                    at_most_one(book_ticker_of(symbol, data, recv_ms))
                } else if contains_text(stream, "aggTrade"@) {
                    at_most_one(agg_trade_of(symbol, data, recv_ms))
                } else if contains_text(stream, "depth"@) {
                    seq![depth_of(symbol, data, recv_ms)]
                } else {
                    Seq::empty()
                }
            },
            None => Seq::empty(),
        },
        None => Seq::empty(),
    }
}

/// A quote of Binance has no time of the exchange: it bears that of receipt.
pub proof fn law_quotes_bear_the_time_of_receipt(msg: JsonView, recv_ms: i64, i: int)
    requires
        0 <= i < records_of(msg, recv_ms).len(),
        records_of(msg, recv_ms)[i] is Bbo,
    ensures
        records_of(msg, recv_ms)[i]->Bbo_0.ts_ex == recv_ms,
{
}

/// The taker of a trade is on the other side than its maker.
pub proof fn law_taker_is_not_the_maker(msg: JsonView, recv_ms: i64, i: int)
    requires
        0 <= i < records_of(msg, recv_ms).len(),
        records_of(msg, recv_ms)[i] is Trade,
    ensures
        (records_of(msg, recv_ms)[i]->Trade_0.side == TradeSide::Sell) == (msg.at("data"@).at(
            "m"@,
        ).as_bool() == Some(true)),
{
}

/// A book record of the stream is never the whole book.
pub proof fn law_stream_is_changes_only(msg: JsonView, recv_ms: i64, i: int)
    requires
        0 <= i < records_of(msg, recv_ms).len(),
        records_of(msg, recv_ms)[i] is Book,
    ensures
        !records_of(msg, recv_ms)[i]->Book_0.is_snapshot,
{
}

/// Binance's names: every coin that is followed has its symbol, and no
/// other name has one.
pub proof fn law_names_of_the_symbols(key: Seq<char>)
    ensures
        forall|up: Seq<char>, low: Seq<char>| #[trigger]
            coin(up, low) && key == low + "usdt"@ ==> lookup(pairs(SYM@), key) == Some(
                low + "/usd"@,
            ),
        lookup(pairs(SYM@), key) is Some ==> exists|up: Seq<char>, low: Seq<char>| #[trigger]
            coin(up, low) && key == low + "usdt"@ && lookup(pairs(SYM@), key) == Some(
                low + "/usd"@,
            ),
{
    let table = pairs(SYM@);
    reveal_strlit("btc");
    reveal_strlit("eth");
    reveal_strlit("sol");
    reveal_strlit("xrp");
    reveal_strlit("doge");
    reveal_strlit("btcusdt");
    reveal_strlit("ethusdt");
    reveal_strlit("solusdt");
    reveal_strlit("xrpusdt");
    reveal_strlit("dogeusdt");
    reveal_strlit("btc/usd");
    reveal_strlit("eth/usd");
    reveal_strlit("sol/usd");
    reveal_strlit("xrp/usd");
    reveal_strlit("doge/usd");
    reveal_strlit("usdt");
    reveal_strlit("/usd");
    assert("btcusdt"@ =~= "btc"@ + "usdt"@);
    assert("btc/usd"@ =~= "btc"@ + "/usd"@);
    assert("ethusdt"@ =~= "eth"@ + "usdt"@);
    assert("eth/usd"@ =~= "eth"@ + "/usd"@);
    assert("solusdt"@ =~= "sol"@ + "usdt"@);
    assert("sol/usd"@ =~= "sol"@ + "/usd"@);
    assert("xrpusdt"@ =~= "xrp"@ + "usdt"@);
    assert("xrp/usd"@ =~= "xrp"@ + "/usd"@);
    assert("dogeusdt"@ =~= "doge"@ + "usdt"@);
    assert("doge/usd"@ =~= "doge"@ + "/usd"@);
    assert(table[0] == ("btcusdt"@, "btc/usd"@));
    assert(table[1] == ("ethusdt"@, "eth/usd"@));
    assert(table[2] == ("solusdt"@, "sol/usd"@));
    assert(table[3] == ("xrpusdt"@, "xrp/usd"@));
    assert(table[4] == ("dogeusdt"@, "doge/usd"@));
    lemma_table_of_coins(table, false, "usdt"@, key);
}

/// No letter of a coin is one that the kinds of streams are told by.
proof fn lemma_letters(up: Seq<char>, low: Seq<char>)
    requires
        coin(up, low),
    ensures
        forall|i: int| 0 <= i < low.len() ==> (#[trigger] low[i]) != '@' && low[i] != 'k' && low[i]
            != 'T',
{
    reveal_strlit("btc");
    reveal_strlit("eth");
    reveal_strlit("sol");
    reveal_strlit("xrp");
    reveal_strlit("doge");
}

proof fn lemma_name_of_stream(low: Seq<char>, suffix: Seq<char>, kind: Seq<char>)
    requires
        forall|i: int| 0 <= i < low.len() ==> (#[trigger] low[i]) != '@',
        suffix == "usdt"@ + seq!['@'] + kind,
    ensures
        until(low + suffix, '@') == low + "usdt"@,
{
    let name = low + "usdt"@;
    assert("usdt"@.len() == 4 && !"usdt"@.contains('@')) by {
        reveal_strlit("usdt");
    }
    assert forall|i: int| 0 <= i < name.len() implies #[trigger] name[i] != '@' by {
        if i < low.len() {
            assert(name[i] == low[i]);
        } else {
            assert("usdt"@.contains("usdt"@[i - low.len()]));
        }
    }
    assert(low + suffix =~= name + seq!['@'] + kind);
    law_until_stops_at_the_first(name, '@', kind);
}

proof fn lemma_lacks_letter(low: Seq<char>, suffix: Seq<char>, pat: Seq<char>, k: int)
    requires
        0 <= k < pat.len(),
        forall|i: int| 0 <= i < low.len() ==> (#[trigger] low[i]) != pat[k],
        forall|i: int| 0 <= i < suffix.len() ==> (#[trigger] suffix[i]) != pat[k],
    ensures
        !contains_text(low + suffix, pat),
{
    let s = low + suffix;
    assert forall|i: int| 0 <= i < s.len() implies #[trigger] s[i] != pat[k] by {
        if i < low.len() {
            assert(s[i] == low[i]);
        } else {
            assert(s[i] == suffix[i - low.len()]);
        }
    }
    lemma_lacks(s, pat, k);
}

proof fn lemma_quote_stream(up: Seq<char>, low: Seq<char>)
    requires
        coin(up, low),
    ensures
        until(low + "usdt@bookTicker"@, '@') == low + "usdt"@,
        contains_text(low + "usdt@bookTicker"@, "bookTicker"@),
{
    lemma_letters(up, low);
    assert("usdt@bookTicker"@ =~= "usdt"@ + seq!['@'] + "bookTicker"@) by {
        reveal_strlit("usdt");
        reveal_strlit("usdt@bookTicker");
        reveal_strlit("bookTicker");
    }
    lemma_name_of_stream(low, "usdt@bookTicker"@, "bookTicker"@);
    lemma_holds(low + "usdt"@ + seq!['@'], "bookTicker"@, Seq::empty());
    assert(low + "usdt"@ + seq!['@'] + "bookTicker"@ + Seq::<char>::empty() =~= low
        + "usdt@bookTicker"@);
}

proof fn lemma_trade_stream(up: Seq<char>, low: Seq<char>)
    requires
        coin(up, low),
    ensures
        until(low + "usdt@aggTrade"@, '@') == low + "usdt"@,
        !contains_text(low + "usdt@aggTrade"@, "bookTicker"@),
        contains_text(low + "usdt@aggTrade"@, "aggTrade"@),
{
    lemma_letters(up, low);
    assert("usdt@aggTrade"@ =~= "usdt"@ + seq!['@'] + "aggTrade"@) by {
        reveal_strlit("usdt");
        reveal_strlit("usdt@aggTrade");
        reveal_strlit("aggTrade");
    }
    lemma_name_of_stream(low, "usdt@aggTrade"@, "aggTrade"@);
    lemma_holds(low + "usdt"@ + seq!['@'], "aggTrade"@, Seq::empty());
    assert(low + "usdt"@ + seq!['@'] + "aggTrade"@ + Seq::<char>::empty() =~= low
        + "usdt@aggTrade"@);
    lemma_trades_are_no_quotes(low);
}

proof fn lemma_trades_are_no_quotes(low: Seq<char>)
    requires
        forall|i: int| 0 <= i < low.len() ==> (#[trigger] low[i]) != 'k',
    ensures
        !contains_text(low + "usdt@aggTrade"@, "bookTicker"@),
{
    let s = "usdt@aggTrade"@;
    assert(forall|i: int| 0 <= i < s.len() ==> (#[trigger] s[i]) != 'k') by {
        reveal_strlit("usdt@aggTrade");
    }
    assert("bookTicker"@.len() == 10 && "bookTicker"@[3] == 'k') by {
        reveal_strlit("bookTicker");
    }
    lemma_lacks_letter(low, s, "bookTicker"@, 3);
}

proof fn lemma_depth_stream(up: Seq<char>, low: Seq<char>)
    requires
        coin(up, low),
    ensures
        until(low + "usdt@depth@100ms"@, '@') == low + "usdt"@,
        !contains_text(low + "usdt@depth@100ms"@, "bookTicker"@),
        !contains_text(low + "usdt@depth@100ms"@, "aggTrade"@),
        contains_text(low + "usdt@depth@100ms"@, "depth"@),
{
    lemma_letters(up, low);
    let rest = seq!['@', '1', '0', '0', 'm', 's'];
    let s = "usdt@depth@100ms"@;
    assert(s =~= "usdt"@ + seq!['@'] + ("depth"@ + rest)) by {
        reveal_strlit("usdt");
        reveal_strlit("usdt@depth@100ms");
        reveal_strlit("depth");
    }
    lemma_name_of_stream(low, s, "depth"@ + rest);
    lemma_holds(low + "usdt"@ + seq!['@'], "depth"@, rest);
    assert(low + "usdt"@ + seq!['@'] + "depth"@ + rest =~= low + s);
    assert(forall|i: int| 0 <= i < s.len() ==> (#[trigger] s[i]) != 'T') by {
        reveal_strlit("usdt@depth@100ms");
    }
    assert("bookTicker"@.len() == 10 && "bookTicker"@[4] == 'T') by {
        reveal_strlit("bookTicker");
    }
    assert("aggTrade"@.len() == 8 && "aggTrade"@[3] == 'T') by {
        reveal_strlit("aggTrade");
    }
    lemma_lacks_letter(low, s, "bookTicker"@, 4);
    lemma_lacks_letter(low, s, "aggTrade"@, 3);
}

/// A message of the trades of a coin gives one trade of its symbol: at the price
/// that the text under `p` spells, of the quantity that the text under `q`
/// spells, with the number under `a`, at the time under `T`, and taken by the
/// seller exactly where `m` is true. Without a price it gives nothing.
pub proof fn law_trade_by_its_fields(
    msg: JsonView,
    recv_ms: i64,
    up: Seq<char>,
    low: Seq<char>,
    price: DecimalView,
    qty: DecimalView,
)
    requires
        coin(up, low),
        msg.at("stream"@) == JsonView::Text(low + "usdt@aggTrade"@),
    ensures
        ({
            let v = records_of(msg, recv_ms);
            let data = msg.at("data"@);
            &&& is_no_number(data.at("p"@)) ==> v.len() == 0
            &&& stands_for(data.at("p"@), price) && is_qty(data.at("q"@), qty) ==> v.len() == 1
                && v[0] is Trade && ({
                let t = v[0]->Trade_0;
                &&& t.exchange == Exchange::Binance
                &&& t.symbol == low + "/usd"@
                &&& t.price == price
                &&& t.qty == qty
                &&& t.recv_ms == recv_ms
                &&& is_time(data.at("T"@), recv_ms, t.ts_ex)
                &&& t.side == TradeSide::Sell <==> data.at("m"@) == JsonView::Bool(true)
                &&& is_written(data.at("a"@), t.trade_id)
            })
        }),
{
    let data = msg.at("data"@);
    lemma_trade_stream(up, low);
    law_names_of_the_symbols(low + "usdt"@);
    assert(coin(up, low));
    law_fields_are_read_as_what_they_say(data.at("p"@), recv_ms);
    law_fields_are_read_as_what_they_say(data.at("q"@), recv_ms);
    law_fields_are_read_as_what_they_say(data.at("T"@), recv_ms);
    law_fields_are_read_as_what_they_say(data.at("a"@), recv_ms);
    assert(stands_for(data.at("p"@), price) ==> dec_of(data.at("p"@)) == Some(price));
}

/// A message of the best quotes of a coin gives one quote of its symbol: `b` and
/// `B` are the bid and its quantity, `a` and `A` the ask and its quantity.
/// Without a bid or without an ask it gives nothing.
pub proof fn law_quote_by_its_fields(
    msg: JsonView,
    recv_ms: i64,
    up: Seq<char>,
    low: Seq<char>,
    bid: DecimalView,
    bid_qty: DecimalView,
    ask: DecimalView,
    ask_qty: DecimalView,
)
    requires
        coin(up, low),
        msg.at("stream"@) == JsonView::Text(low + "usdt@bookTicker"@),
    ensures
        ({
            let v = records_of(msg, recv_ms);
            let data = msg.at("data"@);
            &&& is_no_number(data.at("b"@)) || is_no_number(data.at("a"@)) ==> v.len() == 0
            &&& stands_for(data.at("b"@), bid) && is_qty(data.at("B"@), bid_qty) && stands_for(
                data.at("a"@),
                ask,
            ) && is_qty(data.at("A"@), ask_qty) ==> v == seq![
                RecordView::Bbo(
                    BboView {
                        exchange: Exchange::Binance,
                        symbol: low + "/usd"@,
                        ts_ex: recv_ms,
                        recv_ms,
                        bid,
                        bid_qty,
                        ask,
                        ask_qty,
                    },
                ),
            ]
        }),
{
    let data = msg.at("data"@);
    lemma_quote_stream(up, low);
    law_names_of_the_symbols(low + "usdt"@);
    assert(coin(up, low));
    law_fields_are_read_as_what_they_say(data.at("b"@), recv_ms);
    law_fields_are_read_as_what_they_say(data.at("B"@), recv_ms);
    law_fields_are_read_as_what_they_say(data.at("a"@), recv_ms);
    law_fields_are_read_as_what_they_say(data.at("A"@), recv_ms);
    assert(stands_for(data.at("b"@), bid) ==> dec_of(data.at("b"@)) == Some(bid));
    assert(stands_for(data.at("a"@), ask) ==> dec_of(data.at("a"@)) == Some(ask));
}

/// A message of the book of a coin gives one change of the book of its symbol:
/// `b` are the bids and `a` the asks, and it covers the numbers from `U` to `u`.
pub proof fn law_book_change_by_its_fields(
    msg: JsonView,
    recv_ms: i64,
    up: Seq<char>,
    low: Seq<char>,
    bids: Seq<Level>,
    asks: Seq<Level>,
)
    requires
        coin(up, low),
        msg.at("stream"@) == JsonView::Text(low + "usdt@depth@100ms"@),
        is_ladder(msg.at("data"@).at("b"@), bids),
        is_ladder(msg.at("data"@).at("a"@), asks),
    ensures
        ({
            let v = records_of(msg, recv_ms);
            let data = msg.at("data"@);
            &&& v.len() == 1 && v[0] is Book
            &&& ({
                let b = v[0]->Book_0;
                &&& b.exchange == Exchange::Binance
                &&& b.symbol == low + "/usd"@
                &&& b.bids == bids
                &&& b.asks == asks
                &&& !b.is_snapshot
                &&& b.recv_ms == recv_ms
                &&& is_time(data.at("T"@), recv_ms, b.ts_ex)
                &&& data.at("u"@) matches JsonView::Number(_, _, n) ==> b.seq == n
                &&& data.at("U"@) matches JsonView::Number(_, _, n) ==> b.first_seq == n
                &&& data.at("u"@) !is Number ==> b.seq is None
                &&& data.at("U"@) !is Number ==> b.first_seq is None
            })
        }),
{
    let data = msg.at("data"@);
    lemma_depth_stream(up, low);
    law_names_of_the_symbols(low + "usdt"@);
    assert(coin(up, low));
    law_ladders_are_read_level_by_level(data.at("b"@), bids);
    law_ladders_are_read_level_by_level(data.at("a"@), asks);
    law_fields_are_read_as_what_they_say(data.at("T"@), recv_ms);
}

/// A message without a stream, of a name that is not followed, or of another
/// kind gives nothing.
pub proof fn law_other_messages_give_nothing(msg: JsonView, recv_ms: i64)
    ensures
        msg.at("stream"@) !is Text ==> records_of(msg, recv_ms).len() == 0,
        msg.at("stream"@) matches JsonView::Text(s) ==> (!contains_text(s, "bookTicker"@)
            && !contains_text(s, "aggTrade"@) && !contains_text(s, "depth"@) ==> records_of(
            msg,
            recv_ms,
        ).len() == 0),
        forall|i: int|
            0 <= i < records_of(msg, recv_ms).len() ==> exists|up: Seq<char>, low: Seq<char>|
                #[trigger] coin(up, low) && (#[trigger] records_of(msg, recv_ms)[i]).symbol() == low
                    + "/usd"@,
{
    if let JsonView::Text(stream) = msg.at("stream"@) {
        law_names_of_the_symbols(until(stream, '@'));
    }
}

/// The streams that are asked for: quotes, trades and book changes.
pub const STREAMS: [&'static str; 15] = [
    "btcusdt@bookTicker",
    "ethusdt@bookTicker",
    "solusdt@bookTicker",
    "xrpusdt@bookTicker",
    "dogeusdt@bookTicker",
    "btcusdt@aggTrade",
    "ethusdt@aggTrade",
    "solusdt@aggTrade",
    "xrpusdt@aggTrade",
    "dogeusdt@aggTrade",
    "btcusdt@depth@100ms",
    "ethusdt@depth@100ms",
    "solusdt@depth@100ms",
    "xrpusdt@depth@100ms",
    "dogeusdt@depth@100ms",
];

/// No stream holds anything that JSON would escape.
proof fn lemma_streams_are_plain()
    ensures
        all_plain(texts_of(STREAMS@)),
{
    let v = texts_of(STREAMS@);
    reveal_strlit("btcusdt@bookTicker");
    reveal_strlit("ethusdt@bookTicker");
    reveal_strlit("solusdt@bookTicker");
    reveal_strlit("xrpusdt@bookTicker");
    reveal_strlit("dogeusdt@bookTicker");
    reveal_strlit("btcusdt@aggTrade");
    reveal_strlit("ethusdt@aggTrade");
    reveal_strlit("solusdt@aggTrade");
    reveal_strlit("xrpusdt@aggTrade");
    reveal_strlit("dogeusdt@aggTrade");
    reveal_strlit("btcusdt@depth@100ms");
    reveal_strlit("ethusdt@depth@100ms");
    reveal_strlit("solusdt@depth@100ms");
    reveal_strlit("xrpusdt@depth@100ms");
    reveal_strlit("dogeusdt@depth@100ms");
    assert(is_plain(v[0]) && is_plain(v[1]) && is_plain(v[2]) && is_plain(v[3]) && is_plain(v[4]));
    assert(is_plain(v[5]) && is_plain(v[6]) && is_plain(v[7]) && is_plain(v[8]) && is_plain(v[9]));
    assert(is_plain(v[10]) && is_plain(v[11]) && is_plain(v[12]) && is_plain(v[13]) && is_plain(v[14]));
}

/// The feed of Binance.
#[derive(Debug)]
pub struct BinanceCollector {
    ws_url: String,
}

/// Reads the records of a message.
pub fn read_message(msg: &Json, recv_ms: i64) -> (r: Vec<ParsedRecord>)
    ensures
        records(r@) == records_of(msg@, recv_ms),
        stamped(records(r@), Exchange::Binance, recv_ms),
{
    let mut out: Vec<ParsedRecord> = Vec::new();
    assert(records(out@) =~= Seq::empty());
    let stream: &str = match msg.at("stream").as_str() {
        Some(v) => v,
        None => {
            return out;
        },
    };
    let symbol: &'static str = match sym_lookup(&SYM, before(stream, '@')) {
        Some(v) => v,
        None => {
            return out;
        },
    };
    let data: &Json = msg.at("data");
    if contains(stream, "bookTicker") {
        let bid: Decimal = match dec(data.at("b")) {
            Some(v) => v,
            None => {
                return out;
            },
        };
        let ask: Decimal = match dec(data.at("a")) {
            Some(v) => v,
            None => {
                return out;
            },
        };
        out.push(
            ParsedRecord::Bbo(
                BboRecord {
                    exchange: Exchange::Binance,
                    symbol: symbol.to_owned(),
                    ts_ex: recv_ms,
                    recv_ms,
                    bid,
                    bid_qty: dec_or_zero(data.at("B")),
                    ask,
                    ask_qty: dec_or_zero(data.at("A")),
                },
            ),
        );
    } else if contains(stream, "aggTrade") {
        let price: Decimal = match dec(data.at("p")) {
            Some(v) => v,
            None => {
                return out;
            },
        };
        let side: TradeSide = match data.at("m").as_bool() {
            Some(true) => TradeSide::Sell,
            _ => TradeSide::Buy,
        };
        out.push(
            ParsedRecord::Trade(
                TradeRecord {
                    exchange: Exchange::Binance,
                    symbol: symbol.to_owned(),
                    ts_ex: ts(Some(data.at("T")), recv_ms),
                    recv_ms,
                    price,
                    qty: dec_or_zero(data.at("q")),
                    side,
                    trade_id: s(Some(data.at("a"))),
                },
            ),
        );
    } else if contains(stream, "depth") {
        out.push(
            ParsedRecord::Book(
                BookRecord {
                    exchange: Exchange::Binance,
                    symbol: symbol.to_owned(),
                    ts_ex: ts(Some(data.at("T")), recv_ms),
                    recv_ms,
                    bids: ladder(Some(data.at("b"))),
                    asks: ladder(Some(data.at("a"))),
                    is_snapshot: false,
                    seq: data.at("u").as_u64(),
                    first_seq: data.at("U").as_u64(),
                },
            ),
        );
    }
    assert(records(out@) =~= records_of(msg@, recv_ms));
    out
}

impl BinanceCollector {
    /// The feed at its usual address.
    pub fn new() -> (r: BinanceCollector)
        ensures
            r.url() == "wss://stream.binance.com:9443/stream"@,
    {
        BinanceCollector { ws_url: "wss://stream.binance.com:9443/stream".to_owned() }
    }
}

/// How many levels of the book are asked for.
pub const SNAPSHOT_LIMIT: u32 = 1000;

/// The address of the whole book of `inst`.
pub open spec fn depth_url_of(inst: Seq<char>) -> Seq<char> {
    "https://api.binance.com/api/v3/depth?symbol="@ + uppercase(inst) + "&limit="@ + int_text(
        SNAPSHOT_LIMIT as int,
    )
}

/// The whole book is asked for by the name of the pair in capitals, up to a
/// thousand levels a side.
pub proof fn law_thousand_levels_are_asked_for(inst: Seq<char>)
    ensures
        ({
            let url = depth_url_of(inst);
            let name = "https://api.binance.com/api/v3/depth?symbol="@ + uppercase(inst);
            &&& url.take(name.len() as int) == name
            &&& url.skip(name.len() as int) == "&limit="@ + int_text(1_000)
        }),
{
    let name = "https://api.binance.com/api/v3/depth?symbol="@ + uppercase(inst);
    assert(depth_url_of(inst) =~= name + ("&limit="@ + int_text(1_000)));
    assert(depth_url_of(inst).take(name.len() as int) =~= name);
    assert(depth_url_of(inst).skip(name.len() as int) =~= "&limit="@ + int_text(1_000));
}

/// The address of the whole book of `inst`.
pub fn depth_url(inst: &str) -> (r: String)
    ensures
        r@ == "https://api.binance.com/api/v3/depth?symbol="@ + uppercase(inst@) + "&limit="@
            + int_text(SNAPSHOT_LIMIT as int),
        r@ == depth_url_of(inst@),
{
    let mut url: String = "https://api.binance.com/api/v3/depth?symbol=".to_owned();
    url.append(to_upper(inst).as_str());
    url.append("&limit=");
    push_int(&mut url, SNAPSHOT_LIMIT as i128);
    url
}

/// The whole book that the answer of [`depth_url`] holds. It carries no time of
/// its own, and both its sequence numbers are `lastUpdateId`.
pub open spec fn snapshot_of(symbol: Seq<char>, v: JsonView, recv_ms: i64) -> Option<BookView> {
    match v.at("lastUpdateId"@).as_u64() {
        Some(id) => Some(
            BookView {
                exchange: Exchange::Binance,
                symbol,
                ts_ex: recv_ms,
                recv_ms,
                bids: ladder_of(v.at("bids"@)),
                asks: ladder_of(v.at("asks"@)),
                is_snapshot: true,
                seq: Some(id),
                first_seq: Some(id),
            },
        ),
        None => None,
    }
}

/// The whole book of an answer has the bids under `bids` and the asks under
/// `asks`, and stands at the number under `lastUpdateId`; without this number
/// there is none.
pub proof fn law_whole_book_by_its_fields(
    symbol: Seq<char>,
    v: JsonView,
    recv_ms: i64,
    bids: Seq<Level>,
    asks: Seq<Level>,
)
    requires
        is_ladder(v.at("bids"@), bids),
        is_ladder(v.at("asks"@), asks),
    ensures
        v.at("lastUpdateId"@) matches JsonView::Number(_, _, Some(n)) ==> snapshot_of(
            symbol,
            v,
            recv_ms,
        ) == Some(
            BookView {
                exchange: Exchange::Binance,
                symbol,
                ts_ex: recv_ms,
                recv_ms,
                bids,
                asks,
                is_snapshot: true,
                seq: Some(n),
                first_seq: Some(n),
            },
        ),
        v.at("lastUpdateId"@) !is Number ==> snapshot_of(symbol, v, recv_ms) is None,
{
    law_ladders_are_read_level_by_level(v.at("bids"@), bids);
    law_ladders_are_read_level_by_level(v.at("asks"@), asks);
}

/// Reads the whole book from the answer that was received at `recv_ms`.
pub fn read_snapshot(symbol: &str, v: &Json, recv_ms: i64) -> (r: Option<BookRecord>)
    ensures
        (match r {
            Some(b) => Some(b@),
            None => None,
        }) == snapshot_of(symbol@, v@, recv_ms),
{
    match v.at("lastUpdateId").as_u64() {
        Some(id) => Some(
            BookRecord {
                exchange: Exchange::Binance,
                symbol: symbol.to_owned(),
                ts_ex: recv_ms,
                recv_ms,
                bids: ladder(Some(v.at("bids"))),
                asks: ladder(Some(v.at("asks"))),
                is_snapshot: true,
                seq: Some(id),
                first_seq: Some(id),
            },
        ),
        None => None,
    }
}

/// Reads the whole book of `symbol` from the text of the answer: `None` where
/// it is no JSON or has no `lastUpdateId`.
pub fn parse_snapshot(symbol: &str, body: &str, recv_ms: i64) -> (r: Option<BookRecord>)
    ensures
        (match r {
            Some(b) => Some(b@),
            None => None,
        }) == (match json_text(body@) {
            Some(v) => snapshot_of(symbol@, v, recv_ms),
            None => None,
        }),
{
    match parse_json(body) {
        Some(v) => read_snapshot(symbol, &v, recv_ms),
        None => None,
    }
}

/// Every symbol that can be read is asked for: its quotes, its trades and its
/// book.
pub proof fn law_every_symbol_is_asked_for(i: int)
    requires
        0 <= i < 5,
    ensures
        texts_of(STREAMS@).len() == 15,
        texts_of(STREAMS@)[i] == pairs(SYM@)[i].0 + "@bookTicker"@,
        texts_of(STREAMS@)[i + 5] == pairs(SYM@)[i].0 + "@aggTrade"@,
        texts_of(STREAMS@)[i + 10] == pairs(SYM@)[i].0 + "@depth@100ms"@,
{
    assert("btcusdt@bookTicker"@ =~= "btcusdt"@ + "@bookTicker"@) by {
        reveal_strlit("btcusdt@bookTicker");
        reveal_strlit("btcusdt");
        reveal_strlit("@bookTicker");
    }
    assert("ethusdt@bookTicker"@ =~= "ethusdt"@ + "@bookTicker"@) by {
        reveal_strlit("ethusdt@bookTicker");
        reveal_strlit("ethusdt");
        reveal_strlit("@bookTicker");
    }
    assert("solusdt@bookTicker"@ =~= "solusdt"@ + "@bookTicker"@) by {
        reveal_strlit("solusdt@bookTicker");
        reveal_strlit("solusdt");
        reveal_strlit("@bookTicker");
    }
    assert("xrpusdt@bookTicker"@ =~= "xrpusdt"@ + "@bookTicker"@) by {
        reveal_strlit("xrpusdt@bookTicker");
        reveal_strlit("xrpusdt");
        reveal_strlit("@bookTicker");
    }
    assert("dogeusdt@bookTicker"@ =~= "dogeusdt"@ + "@bookTicker"@) by {
        reveal_strlit("dogeusdt@bookTicker");
        reveal_strlit("dogeusdt");
        reveal_strlit("@bookTicker");
    }
    assert("btcusdt@aggTrade"@ =~= "btcusdt"@ + "@aggTrade"@) by {
        reveal_strlit("btcusdt@aggTrade");
        reveal_strlit("btcusdt");
        reveal_strlit("@aggTrade");
    }
    assert("ethusdt@aggTrade"@ =~= "ethusdt"@ + "@aggTrade"@) by {
        reveal_strlit("ethusdt@aggTrade");
        reveal_strlit("ethusdt");
        reveal_strlit("@aggTrade");
    }
    assert("solusdt@aggTrade"@ =~= "solusdt"@ + "@aggTrade"@) by {
        reveal_strlit("solusdt@aggTrade");
        reveal_strlit("solusdt");
        reveal_strlit("@aggTrade");
    }
    assert("xrpusdt@aggTrade"@ =~= "xrpusdt"@ + "@aggTrade"@) by {
        reveal_strlit("xrpusdt@aggTrade");
        reveal_strlit("xrpusdt");
        reveal_strlit("@aggTrade");
    }
    assert("dogeusdt@aggTrade"@ =~= "dogeusdt"@ + "@aggTrade"@) by {
        reveal_strlit("dogeusdt@aggTrade");
        reveal_strlit("dogeusdt");
        reveal_strlit("@aggTrade");
    }
    assert("btcusdt@depth@100ms"@ =~= "btcusdt"@ + "@depth@100ms"@) by {
        reveal_strlit("btcusdt@depth@100ms");
        reveal_strlit("btcusdt");
        reveal_strlit("@depth@100ms");
    }
    assert("ethusdt@depth@100ms"@ =~= "ethusdt"@ + "@depth@100ms"@) by {
        reveal_strlit("ethusdt@depth@100ms");
        reveal_strlit("ethusdt");
        reveal_strlit("@depth@100ms");
    }
    assert("solusdt@depth@100ms"@ =~= "solusdt"@ + "@depth@100ms"@) by {
        reveal_strlit("solusdt@depth@100ms");
        reveal_strlit("solusdt");
        reveal_strlit("@depth@100ms");
    }
    assert("xrpusdt@depth@100ms"@ =~= "xrpusdt"@ + "@depth@100ms"@) by {
        reveal_strlit("xrpusdt@depth@100ms");
        reveal_strlit("xrpusdt");
        reveal_strlit("@depth@100ms");
    }
    assert("dogeusdt@depth@100ms"@ =~= "dogeusdt"@ + "@depth@100ms"@) by {
        reveal_strlit("dogeusdt@depth@100ms");
        reveal_strlit("dogeusdt");
        reveal_strlit("@depth@100ms");
    }
}

/// A frame is read as JSON, and gives the records of its message; what is no JSON
/// gives nothing.
pub proof fn law_frame_gives_the_records_of_its_message(
    c: BinanceCollector,
    raw: Seq<char>,
    recv_ms: i64,
)
    ensures
        json_text(raw) matches Some(msg) ==> c.frame(raw, recv_ms) == records_of(msg, recv_ms),
        json_text(raw) is None ==> c.frame(raw, recv_ms).len() == 0,
{
}

impl ExchangeSpec for BinanceCollector {
    open spec fn exchange(&self) -> Exchange {
        Exchange::Binance
    }

    closed spec fn url(&self) -> Seq<char> {
        self.ws_url@
    }

    open spec fn requests(&self) -> Seq<Seq<char>> {
        seq![
            "{\"id\":1,\"method\":\"SUBSCRIBE\",\"params\":"@ + list_text(
                each_in_quotes(texts_of(STREAMS@)),
            ) + "}"@,
        ]
    }

    open spec fn ping(&self) -> Option<Seq<char>> {
        None
    }

    open spec fn frame(&self, raw: Seq<char>, recv_ms: i64) -> Seq<RecordView> {
        match json_text(raw) {
            Some(msg) => records_of(msg, recv_ms),
            None => Seq::empty(),
        }
    }

    fn name(&self) -> (r: &'static str) {
        "binance"
    }

    fn ws_url(&self) -> (r: &str) {
        self.ws_url.as_str()
    }

    fn subscribe_msgs(&self) -> (r: Vec<String>) {
        let mut msg: String = "{\"id\":1,\"method\":\"SUBSCRIBE\",\"params\":".to_owned();
        msg.append(quoted_list(&STREAMS).as_str());
        msg.append("}");
        proof {
            lemma_streams_are_plain();
        }
        let mut out: Vec<String> = Vec::new();
        out.push(msg);
        assert(texts(out@) =~= self.requests());
        out
    }

    fn ping_msg(&self) -> (r: Option<String>) {
        None
    }

    fn parse(&self, raw: &str, recv_ms: i64) -> (r: Vec<ParsedRecord>) {
        match parse_json(raw) {
            Some(msg) => read_message(&msg, recv_ms),
            None => {
                let out: Vec<ParsedRecord> = Vec::new();
                assert(records(out@) =~= Seq::empty());
                out
            },
        }
    }
}

} // verus!
