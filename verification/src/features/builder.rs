//! Building the snapshot of a market from what the database answers.

use vstd::prelude::*;
use vstd::string::*;

use super::rows::{
    all_of, bbo_sql, bbo_tick_of, bounds, law_first_bad_row_is_the_error,
    law_one_tick_for_each_row, law_one_value_for_each_line, query_url, read_bbo_ticks, read_rows,
    read_trade_ticks, read_twap_ticks, trade_tick_of, trades_sql, twap_sql, twap_tick_of,
    values_of, DealText, DealView, Problem, QuoteText, QuoteView, RowError,
};
use super::snapshot::{
    law_windows_are_aligned, win_start, win_start_of, BboTick, BboTickView, TradeTick,
    TradeTickView, TwapTick, TwapTickView, WindowSnapshot,
};
use crate::json::{json_text, JsonView};
use crate::seqs::views;
use crate::text::{joined_by, law_lines_stand_between_line_feeds, lines_of, trimmed};

verus! {

/// An answer that cannot be used.
#[derive(Debug)]
pub enum AnswerError {
    /// This line is no JSON.
    Line(String),
    /// This row cannot be used.
    Row(RowError),
}

/// What an [`AnswerError`] holds.
pub enum AnswerErrorView {
    Line(Seq<char>),
    Row(int, Problem),
}

impl View for AnswerError {
    type V = AnswerErrorView;

    open spec fn view(&self) -> AnswerErrorView {
        match self {
            AnswerError::Line(s) => AnswerErrorView::Line(s@),
            AnswerError::Row(e) => AnswerErrorView::Row(e.index as int, e.problem),
        }
    }
}

/// A snapshot that cannot be built, by the answer that is to blame.
#[derive(Debug)]
pub enum BuildError {
    Twap(AnswerError),
    Bbo(AnswerError),
    Trades(AnswerError),
}

/// What a [`BuildError`] holds.
pub enum BuildErrorView {
    Twap(AnswerErrorView),
    Bbo(AnswerErrorView),
    Trades(AnswerErrorView),
}

impl View for BuildError {
    type V = BuildErrorView;

    open spec fn view(&self) -> BuildErrorView {
        match self {
            BuildError::Twap(e) => BuildErrorView::Twap(e@),
            BuildError::Bbo(e) => BuildErrorView::Bbo(e@),
            BuildError::Trades(e) => BuildErrorView::Trades(e@),
        }
    }
}

/// What the database is asked for.
#[derive(Debug)]
pub struct Queries {
    /// The address that all queries are sent to.
    pub url: String,
    pub twap: String,
    pub bbo: String,
    pub trades: String,
}

/// What an answer gives: `f` reads a row.
pub open spec fn answered<T>(
    text: Seq<char>,
    f: spec_fn(JsonView) -> Result<T, Problem>,
) -> Result<Seq<T>, AnswerErrorView> {
    match values_of(lines_of(text)) {
        Err(line) => Err(AnswerErrorView::Line(line)),
        Ok(rows) => match all_of(rows, f) {
            Err(e) => Err(AnswerErrorView::Row(e.0, e.1)),
            Ok(v) => Ok(v),
        },
    }
}

/// What a snapshot holds while quotes and trades are as they were written.
pub struct SnapshotView<F> {
    pub snap_ms: i64,
    pub symbol: Seq<char>,
    pub win_start_ms: i64,
    pub twap_ticks: Seq<TwapTickView>,
    pub bbo_ticks: Seq<BboTickView<QuoteView>>,
    pub trade_ticks: Seq<TradeTickView<DealView>>,
    pub fx_usdt_premium: Option<F>,
}

/// What a snapshot or the reason why there is none is.
pub open spec fn snapshot_view<F>(
    r: Result<WindowSnapshot<QuoteText, DealText, F>, BuildError>,
) -> Result<SnapshotView<F>, BuildErrorView> {
    match r {
        Ok(s) => Ok(
            SnapshotView {
                snap_ms: s.snap_ms,
                symbol: s.symbol@,
                win_start_ms: s.win_start_ms,
                twap_ticks: views(s.twap_ticks@),
                bbo_ticks: views(s.bbo_ticks@),
                trade_ticks: views(s.trade_ticks@),
                fx_usdt_premium: s.fx_usdt_premium,
            },
        ),
        Err(e) => Err(e@),
    }
}

/// The snapshot that the answers give; the first answer that cannot be used is
/// the reason why there is none.
pub open spec fn built<F>(
    symbol: Seq<char>,
    snap_ms: i64,
    twap: Result<Seq<TwapTickView>, AnswerErrorView>,
    bbo: Result<Seq<BboTickView<QuoteView>>, AnswerErrorView>,
    trades: Result<Seq<TradeTickView<DealView>>, AnswerErrorView>,
) -> Result<SnapshotView<F>, BuildErrorView> {
    match (twap, bbo, trades) {
        (Err(e), _, _) => Err(BuildErrorView::Twap(e)),
        (_, Err(e), _) => Err(BuildErrorView::Bbo(e)),
        (_, _, Err(e)) => Err(BuildErrorView::Trades(e)),
        (Ok(twap_ticks), Ok(bbo_ticks), Ok(trade_ticks)) => Ok(
            SnapshotView {
                snap_ms,
                symbol,
                win_start_ms: win_start_of(snap_ms),
                twap_ticks,
                bbo_ticks,
                trade_ticks,
                fx_usdt_premium: None,
            },
        ),
    }
}

/// There is a snapshot exactly where all three answers can be used; it is of the
/// time and the symbol that were asked for, begins at the last full five minutes
/// before it, and holds what the answers give, and nothing else.
pub proof fn law_snapshot_is_what_the_answers_give<F>(
    symbol: Seq<char>,
    snap_ms: i64,
    twap: Result<Seq<TwapTickView>, AnswerErrorView>,
    bbo: Result<Seq<BboTickView<QuoteView>>, AnswerErrorView>,
    trades: Result<Seq<TradeTickView<DealView>>, AnswerErrorView>,
)
    ensures
        ({
            let r = built::<F>(symbol, snap_ms, twap, bbo, trades);
            &&& r is Ok <==> twap is Ok && bbo is Ok && trades is Ok
            &&& r matches Ok(s) ==> {
                &&& s.snap_ms == snap_ms
                &&& s.symbol == symbol
                &&& Ok::<Seq<TwapTickView>, AnswerErrorView>(s.twap_ticks) == twap
                &&& Ok::<Seq<BboTickView<QuoteView>>, AnswerErrorView>(s.bbo_ticks) == bbo
                &&& Ok::<Seq<TradeTickView<DealView>>, AnswerErrorView>(s.trade_ticks) == trades
                &&& s.fx_usdt_premium is None
                &&& snap_ms >= 0 ==> s.win_start_ms as int % 300_000 == 0 && s.win_start_ms
                    <= snap_ms < s.win_start_ms + 300_000
            }
            &&& r matches Err(e) ==> match e {
                BuildErrorView::Twap(e) => twap == Err::<Seq<TwapTickView>, AnswerErrorView>(e),
                BuildErrorView::Bbo(e) => twap is Ok && bbo == Err::<
                    Seq<BboTickView<QuoteView>>,
                    AnswerErrorView,
                >(e),
                BuildErrorView::Trades(e) => twap is Ok && bbo is Ok && trades == Err::<
                    Seq<TradeTickView<DealView>>,
                    AnswerErrorView,
                >(e),
            }
        }),
{
    law_windows_are_aligned(snap_ms);
}

/// An answer of lines that are all JSON is read line by line: each line gives what
/// its row gives, or the first that cannot be used spoils the answer.
pub proof fn law_answer_is_read_line_by_line<T>(
    parts: Seq<Seq<char>>,
    rows: Seq<JsonView>,
    f: spec_fn(JsonView) -> Result<T, Problem>,
)
    requires
        parts.len() > 0,
        parts.len() == rows.len(),
        forall|i: int|
            0 <= i < parts.len() ==> !(#[trigger] parts[i]).contains('\n') && trimmed(
                parts[i],
            ).len() > 0 && parts[i].last() != '\r' && json_text(parts[i]) == Some(rows[i]),
    ensures
        ({
            let r = answered(joined_by(parts, '\n'), f);
            &&& r matches Ok(v) ==> v.len() == rows.len() && forall|i: int|
                0 <= i < rows.len() ==> f(#[trigger] rows[i]) == Ok::<T, Problem>(v[i])
            &&& r is Ok <==> forall|i: int| 0 <= i < rows.len() ==> f(#[trigger] rows[i]) is Ok
            &&& r matches Err(e) ==> (e matches AnswerErrorView::Row(i, p) && 0 <= i < rows.len()
                && f(rows[i]) == Err::<T, Problem>(p))
        }),
{
    let text = joined_by(parts, '\n');
    let lines = lines_of(text);
    law_lines_stand_between_line_feeds(parts, 0);
    assert forall|i: int| 0 <= i < lines.len() implies trimmed(#[trigger] lines[i]).len() > 0
        && json_text(lines[i]) == Some(rows[i]) by {
        assert(!parts[i].contains('\n'));
        law_lines_stand_between_line_feeds(parts, i);
    }
    law_one_value_for_each_line(lines, rows);
    law_first_bad_row_is_the_error(rows, f);
    if all_of(rows, f) is Ok {
        law_one_tick_for_each_row(rows, f);
        let v = all_of(rows, f)->Ok_0;
        assert forall|i: int| 0 <= i < rows.len() implies f(#[trigger] rows[i]) == Ok::<T, Problem>(
            v[i],
        ) by {
            assert(v[i] == all_of(rows, f)->Ok_0[i]);
        }
    }
}

fn answer_twap(text: &str, snap_ms: i64) -> (r: Result<Vec<TwapTick>, AnswerError>)
    ensures
        (match r {
            Ok(v) => Ok(views(v@)),
            Err(e) => Err(e@),
        }) == answered(text@, |row: JsonView| twap_tick_of(row, snap_ms)),
        r is Ok ==> forall|i: int|
            0 <= i < r.unwrap()@.len() ==> (#[trigger] r.unwrap()@[i]).obs_ms <= snap_ms,
{
    match read_rows(text) {
        Ok(rows) => match read_twap_ticks(&rows, snap_ms) {
            Ok(v) => Ok(v),
            Err(e) => Err(AnswerError::Row(e)),
        },
        Err(line) => Err(AnswerError::Line(line)),
    }
}

fn answer_bbo(text: &str, snap_ms: i64) -> (r: Result<Vec<BboTick<QuoteText>>, AnswerError>)
    ensures
        (match r {
            Ok(v) => Ok(views(v@)),
            Err(e) => Err(e@),
        }) == answered(text@, |row: JsonView| bbo_tick_of(row, snap_ms)),
        r is Ok ==> forall|i: int|
            0 <= i < r.unwrap()@.len() ==> (#[trigger] r.unwrap()@[i]).recv_ms <= snap_ms,
{
    match read_rows(text) {
        Ok(rows) => match read_bbo_ticks(&rows, snap_ms) {
            Ok(v) => Ok(v),
            Err(e) => Err(AnswerError::Row(e)),
        },
        Err(line) => Err(AnswerError::Line(line)),
    }
}

fn answer_trades(text: &str, snap_ms: i64) -> (r: Result<Vec<TradeTick<DealText>>, AnswerError>)
    ensures
        (match r {
            Ok(v) => Ok(views(v@)),
            Err(e) => Err(e@),
        }) == answered(text@, |row: JsonView| trade_tick_of(row, snap_ms)),
        r is Ok ==> forall|i: int|
            0 <= i < r.unwrap()@.len() ==> (#[trigger] r.unwrap()@[i]).recv_ms <= snap_ms,
{
    match read_rows(text) {
        Ok(rows) => match read_trade_ticks(&rows, snap_ms) {
            Ok(v) => Ok(v),
            Err(e) => Err(AnswerError::Row(e)),
        },
        Err(line) => Err(AnswerError::Line(line)),
    }
}

/// Builds snapshots from what a database answers.
#[derive(Debug)]
pub struct SnapshotBuilder {
    ch_url: String,
}

impl SnapshotBuilder {
    /// Where the database is.
    pub closed spec fn url(&self) -> Seq<char> {
        self.ch_url@
    }

    /// A builder that asks the database at `ch_url`.
    pub fn new(ch_url: &str) -> (r: SnapshotBuilder)
        ensures
            r.url() == ch_url@,
    {
        SnapshotBuilder { ch_url: ch_url.to_owned() }
    }

    /// What to ask for the snapshot of the time `snap_ms`: all of its window up
    /// to that time, and nothing later.
    pub fn queries(&self, symbol: &str, snap_ms: i64) -> (r: Queries)
        ensures
            r.url@ == self.url() + "?default_format=JSONEachRow"@,
            r.twap@ == "SELECT obs_ms, price FROM pm.twap "@ + bounds(
                symbol@,
                "AND window_s = 30 "@,
                "obs_ms"@,
                win_start_of(snap_ms),
                snap_ms,
            ),
            r.bbo@ == "SELECT exchange, recv_ms, bid, bid_qty, ask, ask_qty FROM pm.ex_bbo "@
                + bounds(symbol@, ""@, "recv_ms"@, win_start_of(snap_ms), snap_ms),
            r.trades@ == "SELECT exchange, recv_ms, price, qty, side FROM pm.ex_trades "@ + bounds(
                symbol@,
                ""@,
                "recv_ms"@,
                win_start_of(snap_ms),
                snap_ms,
            ),
    {
        let start: i64 = win_start(snap_ms);
        Queries {
            url: query_url(self.ch_url.as_str()),
            twap: twap_sql(symbol, start, snap_ms),
            bbo: bbo_sql(symbol, start, snap_ms),
            trades: trades_sql(symbol, start, snap_ms),
        }
    }

    /// Builds the snapshot of the time `snap_ms` from the answers to the
    /// queries. Nothing in it is later than `snap_ms`, even if the database has
    /// and answers with what came later: then there is no snapshot.
    pub fn build<F>(
        &self,
        symbol: &str,
        snap_ms: i64,
        twap: &str,
        bbo: &str,
        trades: &str,
    ) -> (r: Result<WindowSnapshot<QuoteText, DealText, F>, BuildError>)
        ensures
            snapshot_view(r) == built::<F>(
                symbol@,
                snap_ms,
                answered(twap@, |row: JsonView| twap_tick_of(row, snap_ms)),
                answered(bbo@, |row: JsonView| bbo_tick_of(row, snap_ms)),
                answered(trades@, |row: JsonView| trade_tick_of(row, snap_ms)),
            ),
            r is Ok ==> r.unwrap().knows_no_future(),
    {
        let twap_ticks: Vec<TwapTick> = match answer_twap(twap, snap_ms) {
            Ok(v) => v,
            Err(e) => {
                return Err(BuildError::Twap(e));
            },
        };
        let bbo_ticks: Vec<BboTick<QuoteText>> = match answer_bbo(bbo, snap_ms) {
            Ok(v) => v,
            Err(e) => {
                return Err(BuildError::Bbo(e));
            },
        };
        let trade_ticks: Vec<TradeTick<DealText>> = match answer_trades(trades, snap_ms) {
            Ok(v) => v,
            Err(e) => {
                return Err(BuildError::Trades(e));
            },
        };
        Ok(
            WindowSnapshot {
                snap_ms,
                symbol: symbol.to_owned(),
                win_start_ms: win_start(snap_ms),
                twap_ticks,
                bbo_ticks,
                trade_ticks,
                fx_usdt_premium: None,
            },
        )
    }
}

} // verus!
