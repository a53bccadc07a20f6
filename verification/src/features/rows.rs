//! The rows that the database answers with, and the ticks that they hold.
//!
//! A snapshot of a time must not know anything that was not known at that time.
//! The queries ask for nothing later, and the ticks are checked once more when
//! they are read.

use vstd::prelude::*;
use vstd::string::*;

use super::snapshot::{
    BboTick, BboTickView, TradeTick, TradeTickView, TwapTick, TwapTickView,
};
use crate::decimal::{decimal_text, Decimal, DecimalView};
use crate::json::{json_text, parse_json, Json, JsonView};
use crate::numbers::{
    in_range, int_text, is_positive, key_of, order_key, parse_i64, positive, push_int, signed_text,
};
use crate::seqs::{view_of, views};
use crate::text::{
    contains_text, is_empty, lines, lines_of, same, slices, stands_at, trim, trimmed,
};

verus! {

// ── Queries ─────────────────────────────────────────────────────────────────

/// The bounds of a query: the symbol, and the times from `from_ms` to `to_ms`
/// in the column `column`.
pub open spec fn bounds(
    symbol: Seq<char>,
    more: Seq<char>,
    column: Seq<char>,
    from_ms: i64,
    to_ms: i64,
) -> Seq<char> {
    "WHERE symbol = '"@ + symbol + "' "@ + more + "AND "@ + column + " >= "@ + int_text(
        from_ms as int,
    ) + " AND "@ + column + " <= "@ + int_text(to_ms as int) + " ORDER BY "@ + column
        + " ASC FORMAT JSONEachRow"@
}

/// A query asks for one symbol only, and for no time before the one end of its
/// bounds or behind the other.
pub proof fn law_query_keeps_to_its_bounds(
    symbol: Seq<char>,
    more: Seq<char>,
    column: Seq<char>,
    from_ms: i64,
    to_ms: i64,
)
    ensures
        ({
            let text = bounds(symbol, more, column, from_ms, to_ms);
            &&& text.take(("WHERE symbol = '"@ + symbol + "' "@).len() as int) == "WHERE symbol = '"@
                + symbol + "' "@
            &&& contains_text(text, "AND "@ + column + " >= "@ + int_text(from_ms as int))
            &&& contains_text(text, " AND "@ + column + " <= "@ + int_text(to_ms as int))
            &&& contains_text(text, " ORDER BY "@ + column + " ASC FORMAT JSONEachRow"@)
            &&& contains_text(text, more)
        }),
{
    let text = bounds(symbol, more, column, from_ms, to_ms);
    let a = "WHERE symbol = '"@ + symbol + "' "@;
    let b = "AND "@ + column + " >= "@ + int_text(from_ms as int);
    let c = " AND "@ + column + " <= "@ + int_text(to_ms as int);
    let d = " ORDER BY "@ + column + " ASC FORMAT JSONEachRow"@;
    assert(text =~= a + more + b + c + d);
    assert(text.take(a.len() as int) =~= a);
    let i = a.len() as int;
    assert(text.subrange(i, i + more.len()) =~= more);
    assert(stands_at(text, more, i));
    let j = i + more.len();
    assert(text.subrange(j, j + b.len()) =~= b);
    assert(stands_at(text, b, j));
    let k = j + b.len();
    assert(text.subrange(k, k + c.len()) =~= c);
    assert(stands_at(text, c, k));
    let l = k + c.len();
    assert(text.subrange(l, l + d.len()) =~= d);
    assert(stands_at(text, d, l));
}

fn write_bounds(
    sql: &mut String,
    symbol: &str,
    more: &str,
    column: &str,
    from_ms: i64,
    to_ms: i64,
)
    ensures
        final(sql)@ == old(sql)@ + bounds(symbol@, more@, column@, from_ms, to_ms),
{
    sql.append("WHERE symbol = '");
    sql.append(symbol);
    sql.append("' ");
    sql.append(more);
    sql.append("AND ");
    sql.append(column);
    sql.append(" >= ");
    push_int(sql, from_ms as i128);
    sql.append(" AND ");
    sql.append(column);
    sql.append(" <= ");
    push_int(sql, to_ms as i128);
    sql.append(" ORDER BY ");
    sql.append(column);
    sql.append(" ASC FORMAT JSONEachRow");
    assert(sql@ =~= old(sql)@ + bounds(symbol@, more@, column@, from_ms, to_ms));
}

/// The query for the oracle values of a window, up to `snap_ms`.
pub fn twap_sql(symbol: &str, win_start_ms: i64, snap_ms: i64) -> (r: String)
    ensures
        r@ == "SELECT obs_ms, price FROM pm.twap "@ + bounds(
            symbol@,
            "AND window_s = 30 "@,
            "obs_ms"@,
            win_start_ms,
            snap_ms,
        ),
{
    let mut sql: String = "SELECT obs_ms, price FROM pm.twap ".to_owned();
    write_bounds(&mut sql, symbol, "AND window_s = 30 ", "obs_ms", win_start_ms, snap_ms);
    sql
}

/// The query for the best quotes of a window, up to `snap_ms`. It goes by the
/// time of receipt: by the clock of an exchange it might let in what had not
/// come yet.
pub fn bbo_sql(symbol: &str, win_start_ms: i64, snap_ms: i64) -> (r: String)
    ensures
        r@ == "SELECT exchange, recv_ms, bid, bid_qty, ask, ask_qty FROM pm.ex_bbo "@ + bounds(
            symbol@,
            ""@,
            "recv_ms"@,
            win_start_ms,
            snap_ms,
        ),
{
    let mut sql: String =
        "SELECT exchange, recv_ms, bid, bid_qty, ask, ask_qty FROM pm.ex_bbo ".to_owned();
    write_bounds(&mut sql, symbol, "", "recv_ms", win_start_ms, snap_ms);
    sql
}

/// The query for the trades of a window, up to `snap_ms`, by the time of
/// receipt.
pub fn trades_sql(symbol: &str, win_start_ms: i64, snap_ms: i64) -> (r: String)
    ensures
        r@ == "SELECT exchange, recv_ms, price, qty, side FROM pm.ex_trades "@ + bounds(
            symbol@,
            ""@,
            "recv_ms"@,
            win_start_ms,
            snap_ms,
        ),
{
    let mut sql: String =
        "SELECT exchange, recv_ms, price, qty, side FROM pm.ex_trades ".to_owned();
    write_bounds(&mut sql, symbol, "", "recv_ms", win_start_ms, snap_ms);
    sql
}

/// The address that a query is sent to.
pub fn query_url(ch_url: &str) -> (r: String)
    ensures
        r@ == ch_url@ + "?default_format=JSONEachRow"@,
{
    let mut url: String = ch_url.to_owned();
    url.append("?default_format=JSONEachRow");
    url
}

// ── Answers ─────────────────────────────────────────────────────────────────

/// The values of the lines that are not blank, or the first of them that is no
/// JSON.
pub open spec fn values_of(list: Seq<Seq<char>>) -> Result<Seq<JsonView>, Seq<char>>
    decreases list.len(),
{
    if list.len() == 0 {
        Ok(Seq::empty())
    } else {
        match values_of(list.drop_last()) {
            Ok(head) => {
                if trimmed(list.last()).len() == 0 {
                    Ok(head)
                } else {
                    match json_text(list.last()) {
                        Some(v) => Ok(head.push(v)),
                        None => Err(list.last()),
                    }
                }
            },
            Err(line) => Err(line),
        }
    }
}

/// What rows or the line that is none are.
pub open spec fn rows_view(r: Result<Vec<Json>, String>) -> Result<Seq<JsonView>, Seq<char>> {
    match r {
        Ok(v) => Ok(views(v@)),
        Err(line) => Err(line@),
    }
}

proof fn lemma_bad_line_stays(list: Seq<Seq<char>>, i: int)
    requires
        0 <= i <= list.len(),
    ensures
        values_of(list.take(i)) is Err ==> values_of(list) == values_of(list.take(i)),
    decreases list.len(),
{
    if i == list.len() {
        assert(list.take(i) =~= list);
    } else {
        lemma_bad_line_stays(list.drop_last(), i);
        assert(list.drop_last().take(i) =~= list.take(i));
    }
}

/// Reads the answer to a query: a JSON value on each line that is not blank.
/// The first line that is none is the error.
pub fn read_rows(text: &str) -> (r: Result<Vec<Json>, String>)
    ensures
        rows_view(r) == values_of(lines_of(text@)),
{
    let list: Vec<&str> = lines(text);
    let ghost all = lines_of(text@);
    let mut out: Vec<Json> = Vec::new();
    assert(views(out@) =~= Seq::empty());
    assert(all.take(0) =~= Seq::empty());
    let mut i: usize = 0;
    while i < list.len()
        invariant
            all == lines_of(text@),
            slices(list@) == all,
            i <= list@.len(),
            Ok::<Seq<JsonView>, Seq<char>>(views(out@)) == values_of(all.take(i as int)),
        decreases list@.len() - i,
    {
        let ghost before = out@;
        assert(all[i as int] == list@[i as int]@);
        assert(all.take(i + 1).drop_last() =~= all.take(i as int));
        proof {
            lemma_bad_line_stays(all, i + 1);
        }
        let line: &str = list[i];
        if !is_empty(trim(line)) {
            match parse_json(line) {
                Some(v) => {
                    out.push(v);
                    assert(views(out@) =~= views(before).push(v@));
                },
                None => {
                    return Err(line.to_owned());
                },
            }
        }
        i = i + 1;
    }
    assert(all.take(all.len() as int) =~= all);
    Ok(out)
}

/// Lines that are all JSON give their values, one for each line, in order.
pub proof fn law_one_value_for_each_line(list: Seq<Seq<char>>, values: Seq<JsonView>)
    requires
        list.len() == values.len(),
        forall|i: int|
            0 <= i < list.len() ==> trimmed(#[trigger] list[i]).len() > 0 && json_text(list[i])
                == Some(values[i]),
    ensures
        values_of(list) == Ok::<Seq<JsonView>, Seq<char>>(values),
    decreases list.len(),
{
    if list.len() == 0 {
        assert(values =~= Seq::empty());
    } else {
        let head = list.drop_last();
        assert forall|i: int| 0 <= i < head.len() implies trimmed(#[trigger] head[i]).len() > 0
            && json_text(head[i]) == Some(values.drop_last()[i]) by {
            assert(head[i] == list[i]);
        }
        law_one_value_for_each_line(head, values.drop_last());
        assert(list.last() == list[list.len() - 1]);
        assert(values.drop_last().push(values.last()) =~= values);
    }
}

/// A line of white space is passed over. The first other line that is no JSON
/// spoils the answer, and is the error; every line before it is fine.
pub proof fn law_first_bad_line_is_the_error(list: Seq<Seq<char>>, blank: Seq<char>)
    ensures
        trimmed(blank).len() == 0 ==> values_of(list.push(blank)) == values_of(list),
        values_of(list) is Err <==> exists|i: int|
            0 <= i < list.len() && trimmed(#[trigger] list[i]).len() > 0 && json_text(list[i])
                is None,
        values_of(list) matches Err(line) ==> exists|i: int|
            0 <= i < list.len() && #[trigger] list[i] == line && trimmed(line).len() > 0
                && json_text(line) is None && forall|j: int|
                0 <= j < i ==> trimmed(#[trigger] list[j]).len() == 0 || json_text(list[j])
                    is Some,
    decreases list.len(),
{
    assert(list.push(blank).drop_last() =~= list);
    if list.len() > 0 {
        let head = list.drop_last();
        let last = list.len() - 1;
        law_first_bad_line_is_the_error(head, blank);
        assert(list[last] == list.last());
        if values_of(head) is Err {
            let i = choose|i: int|
                0 <= i < head.len() && trimmed(#[trigger] head[i]).len() > 0 && json_text(head[i])
                    is None;
            assert(list[i] == head[i]);
            let line = values_of(head)->Err_0;
            let i = choose|i: int|
                0 <= i < head.len() && #[trigger] head[i] == line && trimmed(line).len() > 0
                    && json_text(line) is None && forall|j: int|
                    0 <= j < i ==> trimmed(#[trigger] head[j]).len() == 0 || json_text(head[j])
                        is Some;
            assert(list[i] == line);
            assert forall|j: int| 0 <= j < i implies trimmed(#[trigger] list[j]).len() == 0
                || json_text(list[j]) is Some by {
                assert(head[j] == list[j]);
            }
        } else {
            assert forall|j: int| 0 <= j < last implies trimmed(#[trigger] list[j]).len() == 0
                || json_text(list[j]) is Some by {
                assert(head[j] == list[j]);
            }
        }
    }
}

/// A whole number that comes as a number or in quotes.
pub open spec fn i64_of(v: JsonView) -> Option<int> {
    match v {
        JsonView::Text(s) => in_range(signed_text(s), i64::MIN as int, i64::MAX as int),
        JsonView::Number(_, Some(n), _) => Some(n as int),
        _ => None,
    }
}

/// Reads a whole number that comes as a number or in quotes: the database puts
/// long numbers in quotes.
pub fn json_i64(v: &Json) -> (r: Option<i64>)
    ensures
        (match r {
            Some(n) => Some(n as int),
            None => None,
        }) == i64_of(v@),
{
    match v {
        Json::Text(s) => parse_i64(s.as_str()),
        Json::Number(n) => n.signed,
        _ => None,
    }
}

// ── Ticks ───────────────────────────────────────────────────────────────────

/// What is wrong with a row.
#[derive(Debug, Clone, Copy, PartialEq, Eq, Structural)]
pub enum Problem {
    /// The time of an oracle value cannot be read.
    ObsMs,
    /// The time of receipt cannot be read.
    RecvMs,
    /// The price is neither a text nor a number.
    PriceKind,
    /// The price cannot be read.
    PriceText,
    /// The row is of this time, which is later than the snapshot.
    Future(i64),
}

/// A row that cannot be used.
#[derive(Debug, Clone, Copy, PartialEq, Eq, Structural)]
pub struct RowError {
    /// Which row it is.
    pub index: usize,
    pub problem: Problem,
}

/// What `f` gives for all rows, or the first row that it gives an error for.
pub open spec fn all_of<T, P>(
    rows: Seq<JsonView>,
    f: spec_fn(JsonView) -> Result<T, P>,
) -> Result<Seq<T>, (int, P)>
    decreases rows.len(),
{
    if rows.len() == 0 {
        Ok(Seq::empty())
    } else {
        match all_of(rows.drop_last(), f) {
            Ok(head) => match f(rows.last()) {
                Ok(t) => Ok(head.push(t)),
                Err(p) => Err((rows.len() - 1, p)),
            },
            Err(e) => Err(e),
        }
    }
}

pub proof fn lemma_bad_row_stays<T, P>(
    rows: Seq<JsonView>,
    f: spec_fn(JsonView) -> Result<T, P>,
    i: int,
)
    requires
        0 <= i <= rows.len(),
    ensures
        all_of(rows.take(i), f) is Err ==> all_of(rows, f) == all_of(rows.take(i), f),
    decreases rows.len(),
{
    if i == rows.len() {
        assert(rows.take(i) =~= rows);
    } else {
        lemma_bad_row_stays(rows.drop_last(), f, i);
        assert(rows.drop_last().take(i) =~= rows.take(i));
    }
}

/// Where all rows can be used there is one item for each of them, in order.
pub proof fn law_one_tick_for_each_row<T, P>(
    rows: Seq<JsonView>,
    f: spec_fn(JsonView) -> Result<T, P>,
)
    requires
        all_of(rows, f) is Ok,
    ensures
        all_of(rows, f)->Ok_0.len() == rows.len(),
        forall|i: int|
            0 <= i < rows.len() ==> f(rows[i]) == Ok::<T, P>(
                #[trigger] all_of(rows, f)->Ok_0[i],
            ),
    decreases rows.len(),
{
    if rows.len() > 0 {
        law_one_tick_for_each_row(rows.drop_last(), f);
        let head = all_of(rows.drop_last(), f)->Ok_0;
        let all = all_of(rows, f)->Ok_0;
        assert forall|i: int| 0 <= i < rows.len() implies f(rows[i]) == Ok::<T, P>(
            #[trigger] all[i],
        ) by {
            if i < rows.len() - 1 {
                assert(all[i] == head[i]);
                assert(rows.drop_last()[i] == rows[i]);
            }
        }
    }
}

/// The oracle value of a row, for a snapshot of the time `snap_ms`.
pub open spec fn twap_tick_of(row: JsonView, snap_ms: i64) -> Result<TwapTickView, Problem> {
    match i64_of(row.at("obs_ms"@)) {
        None => Err(Problem::ObsMs),
        Some(obs_ms) => match row.at("price"@) {
            JsonView::Text(s) => twap_tick_at(obs_ms as i64, decimal_text(s), snap_ms),
            JsonView::Number(s, _, _) => twap_tick_at(obs_ms as i64, decimal_text(s), snap_ms),
            _ => Err(Problem::PriceKind),
        },
    }
}

/// The oracle value of the time `obs_ms`, unless it is later than `snap_ms`.
pub open spec fn twap_tick_at(obs_ms: i64, price: Option<DecimalView>, snap_ms: i64) -> Result<
    TwapTickView,
    Problem,
> {
    match price {
        None => Err(Problem::PriceText),
        Some(price) => {
            if obs_ms <= snap_ms {
                Ok(TwapTickView { obs_ms, price })
            } else {
                Err(Problem::Future(obs_ms))
            }
        },
    }
}

/// What items or the row that cannot be used are.
pub open spec fn ticks_view<T: View>(r: Result<Vec<T>, RowError>) -> Result<
    Seq<T::V>,
    (int, Problem),
> {
    match r {
        Ok(v) => Ok(views(v@)),
        Err(e) => Err((e.index as int, e.problem)),
    }
}

/// One row that is later than the snapshot spoils the whole answer, in each of
/// the tables.
pub proof fn law_later_row_spoils_the_answer(rows: Seq<JsonView>, snap_ms: i64, i: int)
    requires
        0 <= i < rows.len(),
    ensures
        i64_of(rows[i].at("obs_ms"@)) is Some && i64_of(rows[i].at("obs_ms"@)).unwrap() > snap_ms
            ==> all_of(rows, |row: JsonView| twap_tick_of(row, snap_ms)) is Err,
        i64_of(rows[i].at("recv_ms"@)) is Some && i64_of(rows[i].at("recv_ms"@)).unwrap() > snap_ms
            ==> all_of(rows, |row: JsonView| bbo_tick_of(row, snap_ms)) is Err && all_of(
            rows,
            |row: JsonView| trade_tick_of(row, snap_ms),
        ) is Err,
{
    let f = |row: JsonView| twap_tick_of(row, snap_ms);
    let g = |row: JsonView| bbo_tick_of(row, snap_ms);
    let h = |row: JsonView| trade_tick_of(row, snap_ms);
    if all_of(rows, f) is Ok {
        law_one_tick_for_each_row(rows, f);
        assert(f(rows[i]) == Ok::<TwapTickView, Problem>(all_of(rows, f)->Ok_0[i]));
    }
    if all_of(rows, g) is Ok {
        law_one_tick_for_each_row(rows, g);
        assert(g(rows[i]) == Ok::<BboTickView<QuoteView>, Problem>(all_of(rows, g)->Ok_0[i]));
    }
    if all_of(rows, h) is Ok {
        law_one_tick_for_each_row(rows, h);
        assert(h(rows[i]) == Ok::<TradeTickView<DealView>, Problem>(all_of(rows, h)->Ok_0[i]));
    }
}

/// The value says the whole number `n`: as a number, or as digits in quotes.
pub open spec fn says(v: JsonView, n: i64) -> bool {
    match v {
        JsonView::Text(s) => signed_text(s) == Some(n as int),
        JsonView::Number(_, whole, _) => whole == Some(n),
        _ => false,
    }
}

/// A whole number is read where it is said, and only there.
pub proof fn law_whole_numbers_are_read(v: JsonView, n: i64)
    ensures
        says(v, n) <==> i64_of(v) == Some(n as int),
{
}

/// All rows are used where each of them can be; else the error is of the first
/// row that cannot, and tells which it is.
pub proof fn law_first_bad_row_is_the_error<T, P>(
    rows: Seq<JsonView>,
    f: spec_fn(JsonView) -> Result<T, P>,
)
    ensures
        all_of(rows, f) is Ok <==> forall|i: int|
            0 <= i < rows.len() ==> f(#[trigger] rows[i]) is Ok,
        all_of(rows, f) matches Err(e) ==> 0 <= e.0 < rows.len() && f(rows[e.0]) == Err::<T, P>(
            e.1,
        ) && forall|j: int| 0 <= j < e.0 ==> f(#[trigger] rows[j]) is Ok,
    decreases rows.len(),
{
    if rows.len() > 0 {
        let head = rows.drop_last();
        let last = rows.len() - 1;
        law_first_bad_row_is_the_error(head, f);
        assert(rows[last] == rows.last());
        if all_of(head, f) is Ok {
            assert forall|j: int| 0 <= j < last implies f(#[trigger] rows[j]) is Ok by {
                assert(head[j] == rows[j]);
            }
        } else {
            let e = all_of(head, f)->Err_0;
            assert(head[e.0] == rows[e.0]);
            assert forall|j: int| 0 <= j < e.0 implies f(#[trigger] rows[j]) is Ok by {
                assert(head[j] == rows[j]);
            }
        }
    }
}

/// A trade is what its row says: the text under `price` is its price and the
/// text under `qty` its quantity, and it was received when `recv_ms` says.
pub proof fn law_trade_is_what_its_row_says(rows: Seq<JsonView>, snap_ms: i64, i: int, n: i64)
    requires
        0 <= i < rows.len(),
        says(rows[i].at("recv_ms"@), n),
    ensures
        ({
            let r = all_of(rows, |row: JsonView| trade_tick_of(row, snap_ms));
            let row = rows[i];
            &&& n > snap_ms ==> r is Err
            &&& r matches Ok(ticks) ==> {
                &&& ticks.len() == rows.len()
                &&& ticks[i].recv_ms == n
                &&& row.at("price"@) matches JsonView::Text(p) ==> ticks[i].deal.price == Some(p)
                &&& row.at("qty"@) matches JsonView::Text(q) ==> ticks[i].deal.qty == Some(q)
                &&& row.at("price"@) !is Text ==> ticks[i].deal.price is None
                &&& row.at("qty"@) !is Text ==> ticks[i].deal.qty is None
                &&& ticks[i].is_buy <==> row.at("side"@) == JsonView::Text("buy"@)
                &&& row.at("exchange"@) matches JsonView::Text(e) ==> ticks[i].exchange == e
                &&& row.at("exchange"@) !is Text ==> ticks[i].exchange == "?"@
            }
        }),
{
    let f = |row: JsonView| trade_tick_of(row, snap_ms);
    if all_of(rows, f) is Ok {
        law_one_tick_for_each_row(rows, f);
        assert(f(rows[i]) == Ok::<TradeTickView<DealView>, Problem>(all_of(rows, f)->Ok_0[i]));
    }
}

/// A quote is what its row says: bid, ask and their quantities are the texts
/// under their names, and it was received when `recv_ms` says.
pub proof fn law_quote_is_what_its_row_says(rows: Seq<JsonView>, snap_ms: i64, i: int, n: i64)
    requires
        0 <= i < rows.len(),
        says(rows[i].at("recv_ms"@), n),
    ensures
        ({
            let r = all_of(rows, |row: JsonView| bbo_tick_of(row, snap_ms));
            let row = rows[i];
            &&& n > snap_ms ==> r is Err
            &&& r matches Ok(ticks) ==> {
                let quote = ticks[i].quote;
                &&& ticks.len() == rows.len()
                &&& ticks[i].recv_ms == n
                &&& row.at("bid"@) matches JsonView::Text(p) ==> quote.bid == Some(p)
                &&& row.at("bid_qty"@) matches JsonView::Text(p) ==> quote.bid_qty == Some(p)
                &&& row.at("ask"@) matches JsonView::Text(p) ==> quote.ask == Some(p)
                &&& row.at("ask_qty"@) matches JsonView::Text(p) ==> quote.ask_qty == Some(p)
                &&& row.at("exchange"@) matches JsonView::Text(e) ==> ticks[i].exchange == e
                &&& row.at("bid"@) !is Text ==> quote.bid is None
                &&& row.at("bid_qty"@) !is Text ==> quote.bid_qty is None
                &&& row.at("ask"@) !is Text ==> quote.ask is None
                &&& row.at("ask_qty"@) !is Text ==> quote.ask_qty is None
                &&& row.at("exchange"@) !is Text ==> ticks[i].exchange == "?"@
            }
        }),
{
    let f = |row: JsonView| bbo_tick_of(row, snap_ms);
    if all_of(rows, f) is Ok {
        law_one_tick_for_each_row(rows, f);
        assert(f(rows[i]) == Ok::<BboTickView<QuoteView>, Problem>(all_of(rows, f)->Ok_0[i]));
    }
}

/// An oracle value is what its row says: the number under `price`, in quotes or
/// bare, and observed when `obs_ms` says.
pub proof fn law_oracle_value_is_what_its_row_says(
    rows: Seq<JsonView>,
    snap_ms: i64,
    i: int,
    n: i64,
    price: Seq<char>,
)
    requires
        0 <= i < rows.len(),
        says(rows[i].at("obs_ms"@), n),
        rows[i].at("price"@) == JsonView::Text(price) || (rows[i].at("price"@) is Number
            && rows[i].at("price"@)->Number_0 == price),
    ensures
        ({
            let r = all_of(rows, |row: JsonView| twap_tick_of(row, snap_ms));
            &&& n > snap_ms || decimal_text(price) is None ==> r is Err
            &&& r matches Ok(ticks) ==> {
                &&& ticks.len() == rows.len()
                &&& ticks[i].obs_ms == n
                &&& Some(ticks[i].price) == decimal_text(price)
            }
        }),
{
    let f = |row: JsonView| twap_tick_of(row, snap_ms);
    if all_of(rows, f) is Ok {
        law_one_tick_for_each_row(rows, f);
        assert(f(rows[i]) == Ok::<TwapTickView, Problem>(all_of(rows, f)->Ok_0[i]));
    }
}

/// A row of a time that can be read and that is not later than the snapshot can
/// be used; an oracle value needs a price too. What is wrong with any other row
/// is said: its time cannot be read, or is later, or its price is none.
pub proof fn law_what_can_be_used(row: JsonView, snap_ms: i64, n: i64)
    ensures
        says(row.at("recv_ms"@), n) && n <= snap_ms ==> trade_tick_of(row, snap_ms) is Ok
            && bbo_tick_of(row, snap_ms) is Ok,
        says(row.at("recv_ms"@), n) && n > snap_ms ==> trade_tick_of(row, snap_ms) == Err::<
            TradeTickView<DealView>,
            Problem,
        >(Problem::Future(n)) && bbo_tick_of(row, snap_ms) == Err::<
            BboTickView<QuoteView>,
            Problem,
        >(Problem::Future(n)),
        (forall|m: i64| !#[trigger] says(row.at("recv_ms"@), m)) ==> trade_tick_of(row, snap_ms)
            == Err::<TradeTickView<DealView>, Problem>(Problem::RecvMs) && bbo_tick_of(row, snap_ms)
            == Err::<BboTickView<QuoteView>, Problem>(Problem::RecvMs),
        (forall|m: i64| !#[trigger] says(row.at("obs_ms"@), m)) ==> twap_tick_of(row, snap_ms)
            == Err::<TwapTickView, Problem>(Problem::ObsMs),
        says(row.at("obs_ms"@), n) && row.at("price"@) !is Text && row.at("price"@) !is Number
            ==> twap_tick_of(row, snap_ms) == Err::<TwapTickView, Problem>(Problem::PriceKind),
        forall|p: Seq<char>|
            #![trigger decimal_text(p)]
            says(row.at("obs_ms"@), n) && (row.at("price"@) == JsonView::Text(p) || (row.at(
                "price"@,
            ) is Number && row.at("price"@)->Number_0 == p)) ==> twap_tick_of(row, snap_ms) == (
            if decimal_text(p) is None {
                Err::<TwapTickView, Problem>(Problem::PriceText)
            } else if n > snap_ms {
                Err(Problem::Future(n))
            } else {
                Ok(TwapTickView { obs_ms: n, price: decimal_text(p).unwrap() })
            }),
{
    if forall|m: i64| !#[trigger] says(row.at("recv_ms"@), m) {
        if i64_of(row.at("recv_ms"@)) is Some {
            let m = i64_of(row.at("recv_ms"@)).unwrap() as i64;
            assert(says(row.at("recv_ms"@), m));
        }
    }
    if forall|m: i64| !#[trigger] says(row.at("obs_ms"@), m) {
        if i64_of(row.at("obs_ms"@)) is Some {
            let m = i64_of(row.at("obs_ms"@)).unwrap() as i64;
            assert(says(row.at("obs_ms"@), m));
        }
    }
}

fn read_twap_tick(row: &Json, snap_ms: i64) -> (r: Result<TwapTick, Problem>)
    ensures
        (match r {
            Ok(t) => Ok(t@),
            Err(p) => Err(p),
        }) == twap_tick_of(row@, snap_ms),
{
    let obs_ms: i64 = match json_i64(row.at("obs_ms")) {
        Some(v) => v,
        None => {
            return Err(Problem::ObsMs);
        },
    };
    let price: Option<Decimal> = match row.at("price") {
        Json::Text(s) => Decimal::parse(s.as_str()),
        Json::Number(n) => Decimal::parse(n.text.as_str()),
        _ => {
            return Err(Problem::PriceKind);
        },
    };
    match price {
        None => Err(Problem::PriceText),
        Some(price) => {
            if obs_ms <= snap_ms {
                Ok(TwapTick { obs_ms, price })
            } else {
                Err(Problem::Future(obs_ms))
            }
        },
    }
}

/// Reads the oracle values of a window. None of them is later than the
/// snapshot: a row that is makes the whole answer useless.
pub fn read_twap_ticks(rows: &Vec<Json>, snap_ms: i64) -> (r: Result<Vec<TwapTick>, RowError>)
    ensures
        ticks_view(r) == all_of(views(rows@), |row: JsonView| twap_tick_of(row, snap_ms)),
        r is Ok ==> forall|i: int|
            0 <= i < r.unwrap()@.len() ==> (#[trigger] r.unwrap()@[i]).obs_ms <= snap_ms,
{
    let ghost all = views(rows@);
    let ghost f = |row: JsonView| twap_tick_of(row, snap_ms);
    let mut out: Vec<TwapTick> = Vec::new();
    assert(views(out@) =~= Seq::empty());
    assert(all.take(0) =~= Seq::empty());
    let mut i: usize = 0;
    while i < rows.len()
        invariant
            all == views(rows@),
            f == (|row: JsonView| twap_tick_of(row, snap_ms)),
            i <= rows@.len(),
            Ok::<Seq<TwapTickView>, (int, Problem)>(views(out@)) == all_of(all.take(i as int), f),
            forall|k: int| 0 <= k < out@.len() ==> (#[trigger] out@[k]).obs_ms <= snap_ms,
        decreases rows@.len() - i,
    {
        let ghost before = out@;
        assert(all[i as int] == rows@[i as int]@);
        assert(all.take(i + 1).drop_last() =~= all.take(i as int));
        proof {
            lemma_bad_row_stays(all, f, i + 1);
        }
        match read_twap_tick(&rows[i], snap_ms) {
            Ok(t) => {
                out.push(t);
                assert(views(out@) =~= views(before).push(t@));
            },
            Err(problem) => {
                return Err(RowError { index: i, problem });
            },
        }
        i = i + 1;
    }
    assert(all.take(all.len() as int) =~= all);
    Ok(out)
}

/// The prices and quantities of a quote, as they are written; `None` where the
/// row has no text.
#[derive(Debug)]
pub struct QuoteText {
    pub bid: Option<String>,
    pub bid_qty: Option<String>,
    pub ask: Option<String>,
    pub ask_qty: Option<String>,
}

/// What a [`QuoteText`] holds.
pub struct QuoteView {
    pub bid: Option<Seq<char>>,
    pub bid_qty: Option<Seq<char>>,
    pub ask: Option<Seq<char>>,
    pub ask_qty: Option<Seq<char>>,
}

impl View for QuoteText {
    type V = QuoteView;

    open spec fn view(&self) -> QuoteView {
        QuoteView {
            bid: view_of(self.bid),
            bid_qty: view_of(self.bid_qty),
            ask: view_of(self.ask),
            ask_qty: view_of(self.ask_qty),
        }
    }
}

/// The view of a [`QuoteText`] shows each field under its own name.
pub proof fn law_view_of_quote_text(v: QuoteText)
    ensures
        v@.bid == view_of(v.bid),
        v@.bid_qty == view_of(v.bid_qty),
        v@.ask == view_of(v.ask),
        v@.ask_qty == view_of(v.ask_qty),
{
}

/// The price and the quantity of a trade, as they are written; `None` where the
/// row has no text.
#[derive(Debug)]
pub struct DealText {
    pub price: Option<String>,
    pub qty: Option<String>,
}

/// What a [`DealText`] holds.
pub struct DealView {
    pub price: Option<Seq<char>>,
    pub qty: Option<Seq<char>>,
}

impl View for DealText {
    type V = DealView;

    open spec fn view(&self) -> DealView {
        DealView { price: view_of(self.price), qty: view_of(self.qty) }
    }
}

/// The view of a [`DealText`] shows each field under its own name.
pub proof fn law_view_of_deal_text(v: DealText)
    ensures
        v@.price == view_of(v.price),
        v@.qty == view_of(v.qty),
{
}

/// The name of the exchange of a row, or a question mark.
pub open spec fn exchange_of(row: JsonView) -> Seq<char> {
    match row.at("exchange"@).as_str() {
        Some(name) => name,
        None => "?"@,
    }
}

/// The quote of a row, for a snapshot of the time `snap_ms`.
pub open spec fn bbo_tick_of(row: JsonView, snap_ms: i64) -> Result<
    BboTickView<QuoteView>,
    Problem,
> {
    match i64_of(row.at("recv_ms"@)) {
        None => Err(Problem::RecvMs),
        Some(recv_ms) => {
            if recv_ms <= snap_ms {
                Ok(
                    BboTickView {
                        exchange: exchange_of(row),
                        recv_ms: recv_ms as i64,
                        quote: QuoteView {
                            bid: row.at("bid"@).as_str(),
                            bid_qty: row.at("bid_qty"@).as_str(),
                            ask: row.at("ask"@).as_str(),
                            ask_qty: row.at("ask_qty"@).as_str(),
                        },
                    },
                )
            } else {
                Err(Problem::Future(recv_ms as i64))
            }
        },
    }
}

/// The trade of a row, for a snapshot of the time `snap_ms`.
pub open spec fn trade_tick_of(row: JsonView, snap_ms: i64) -> Result<
    TradeTickView<DealView>,
    Problem,
> {
    match i64_of(row.at("recv_ms"@)) {
        None => Err(Problem::RecvMs),
        Some(recv_ms) => {
            if recv_ms <= snap_ms {
                Ok(
                    TradeTickView {
                        exchange: exchange_of(row),
                        recv_ms: recv_ms as i64,
                        is_buy: row.at("side"@).as_str() == Some("buy"@),
                        deal: DealView {
                            price: row.at("price"@).as_str(),
                            qty: row.at("qty"@).as_str(),
                        },
                    },
                )
            } else {
                Err(Problem::Future(recv_ms as i64))
            }
        },
    }
}

fn own(s: Option<&str>) -> (r: Option<String>)
    ensures
        view_of(r) == (match s {
            Some(t) => Some(t@),
            None => None,
        }),
{
    match s {
        Some(t) => Some(t.to_owned()),
        None => None,
    }
}

fn read_exchange(row: &Json) -> (r: String)
    ensures
        r@ == exchange_of(row@),
{
    match row.at("exchange").as_str() {
        Some(name) => name.to_owned(),
        None => "?".to_owned(),
    }
}

fn read_recv_ms(row: &Json, snap_ms: i64) -> (r: Result<i64, Problem>)
    ensures
        r == (match i64_of(row@.at("recv_ms"@)) {
            None => Err(Problem::RecvMs),
            Some(recv_ms) => if recv_ms <= snap_ms {
                Ok(recv_ms as i64)
            } else {
                Err(Problem::Future(recv_ms as i64))
            },
        }),
{
    match json_i64(row.at("recv_ms")) {
        Some(recv_ms) => {
            if recv_ms <= snap_ms {
                Ok(recv_ms)
            } else {
                Err(Problem::Future(recv_ms))
            }
        },
        None => Err(Problem::RecvMs),
    }
}

/// Reads the quotes of a window. None of them was received later than the
/// snapshot: a row that was makes the whole answer useless.
pub fn read_bbo_ticks(rows: &Vec<Json>, snap_ms: i64) -> (r: Result<
    Vec<BboTick<QuoteText>>,
    RowError,
>)
    ensures
        ticks_view(r) == all_of(views(rows@), |row: JsonView| bbo_tick_of(row, snap_ms)),
        r is Ok ==> forall|i: int|
            0 <= i < r.unwrap()@.len() ==> (#[trigger] r.unwrap()@[i]).recv_ms <= snap_ms,
{
    let ghost all = views(rows@);
    let ghost f = |row: JsonView| bbo_tick_of(row, snap_ms);
    let mut out: Vec<BboTick<QuoteText>> = Vec::new();
    assert(views(out@) =~= Seq::empty());
    assert(all.take(0) =~= Seq::empty());
    let mut i: usize = 0;
    while i < rows.len()
        invariant
            all == views(rows@),
            f == (|row: JsonView| bbo_tick_of(row, snap_ms)),
            i <= rows@.len(),
            Ok::<Seq<BboTickView<QuoteView>>, (int, Problem)>(views(out@)) == all_of(
                all.take(i as int),
                f,
            ),
            forall|k: int| 0 <= k < out@.len() ==> (#[trigger] out@[k]).recv_ms <= snap_ms,
        decreases rows@.len() - i,
    {
        let ghost before = out@;
        assert(all[i as int] == rows@[i as int]@);
        assert(all.take(i + 1).drop_last() =~= all.take(i as int));
        proof {
            lemma_bad_row_stays(all, f, i + 1);
        }
        let row: &Json = &rows[i];
        match read_recv_ms(row, snap_ms) {
            Ok(recv_ms) => {
                let tick: BboTick<QuoteText> = BboTick {
                    exchange: read_exchange(row),
                    recv_ms,
                    quote: QuoteText {
                        bid: own(row.at("bid").as_str()),
                        bid_qty: own(row.at("bid_qty").as_str()),
                        ask: own(row.at("ask").as_str()),
                        ask_qty: own(row.at("ask_qty").as_str()),
                    },
                };
                out.push(tick);
                assert(views(out@) =~= views(before).push(tick@));
            },
            Err(problem) => {
                return Err(RowError { index: i, problem });
            },
        }
        i = i + 1;
    }
    assert(all.take(all.len() as int) =~= all);
    Ok(out)
}

/// Reads the trades of a window. None of them was received later than the
/// snapshot: a row that was makes the whole answer useless.
pub fn read_trade_ticks(rows: &Vec<Json>, snap_ms: i64) -> (r: Result<
    Vec<TradeTick<DealText>>,
    RowError,
>)
    ensures
        ticks_view(r) == all_of(views(rows@), |row: JsonView| trade_tick_of(row, snap_ms)),
        r is Ok ==> forall|i: int|
            0 <= i < r.unwrap()@.len() ==> (#[trigger] r.unwrap()@[i]).recv_ms <= snap_ms,
{
    let ghost all = views(rows@);
    let ghost f = |row: JsonView| trade_tick_of(row, snap_ms);
    let mut out: Vec<TradeTick<DealText>> = Vec::new();
    assert(views(out@) =~= Seq::empty());
    assert(all.take(0) =~= Seq::empty());
    let mut i: usize = 0;
    while i < rows.len()
        invariant
            all == views(rows@),
            f == (|row: JsonView| trade_tick_of(row, snap_ms)),
            i <= rows@.len(),
            Ok::<Seq<TradeTickView<DealView>>, (int, Problem)>(views(out@)) == all_of(
                all.take(i as int),
                f,
            ),
            forall|k: int| 0 <= k < out@.len() ==> (#[trigger] out@[k]).recv_ms <= snap_ms,
        decreases rows@.len() - i,
    {
        let ghost before = out@;
        assert(all[i as int] == rows@[i as int]@);
        assert(all.take(i + 1).drop_last() =~= all.take(i as int));
        proof {
            lemma_bad_row_stays(all, f, i + 1);
        }
        let row: &Json = &rows[i];
        match read_recv_ms(row, snap_ms) {
            Ok(recv_ms) => {
                let tick: TradeTick<DealText> = TradeTick {
                    exchange: read_exchange(row),
                    recv_ms,
                    is_buy: match row.at("side").as_str() {
                        Some(side) => same(side, "buy"),
                        None => false,
                    },
                    deal: DealText {
                        price: own(row.at("price").as_str()),
                        qty: own(row.at("qty").as_str()),
                    },
                };
                out.push(tick);
                assert(views(out@) =~= views(before).push(tick@));
            },
            Err(problem) => {
                return Err(RowError { index: i, problem });
            },
        }
        i = i + 1;
    }
    assert(all.take(all.len() as int) =~= all);
    Ok(out)
}

// ── Damage ──────────────────────────────────────────────────────────────────

/// A quote with these prices can be used: both are more than zero and less than
/// infinity, and the bid is not above the ask. The prices are given by the bits
/// of 64-bit numbers.
pub open spec fn sound_prices(bid: u64, ask: u64) -> bool {
    positive(bid) && positive(ask) && key_of(bid).unwrap() <= key_of(ask).unwrap()
}

/// A quote can be used exactly where its bits are those of positive numbers below
/// infinity, the bid not above the ask: such numbers are ordered as their bits.
pub proof fn law_sound_prices_by_their_bits(bid: u64, ask: u64)
    ensures
        sound_prices(bid, ask) == (0 < bid <= ask < 0x7ff0_0000_0000_0000),
{
}

/// Whether a quote with these prices, given by their bits, can be used. What is
/// no number, is not positive or crosses is damaged.
pub fn is_sound_quote(bid: u64, ask: u64) -> (r: bool)
    ensures
        r == sound_prices(bid, ask),
{
    is_positive(bid) && is_positive(ask) && match (order_key(bid), order_key(ask)) {
        (Some(b), Some(a)) => b <= a,
        _ => false,
    }
}

/// Whether a trade at this price of this quantity, given by their bits, can be
/// used: both are more than zero and less than infinity.
pub fn is_sound_deal(price: u64, qty: u64) -> (r: bool)
    ensures
        r == (positive(price) && positive(qty)),
{
    is_positive(price) && is_positive(qty)
}

} // verus!
