//! The labels of past windows, for training.

use vstd::prelude::*;
use vstd::string::*;

use super::rows::{all_of, i64_of, json_i64, lemma_bad_row_stays, says};
use super::snapshot::{win_start, win_start_of};
use super::vector::{FEATURE_COUNT, FEATURE_NAMES};
use crate::json::{texts_of, Json, JsonView};
use crate::numbers::{int_text, push_int};
use crate::seqs::views;

verus! {

/// How long after the start of a window a prediction is made, in milliseconds.
pub const PRED_OFFSET_MS: i64 = 190_000;

/// The label of a window: how its price moved. `F` is what holds the move.
#[derive(Debug)]
pub struct WindowLabel<F> {
    pub symbol: String,
    pub win_start_ms: i64,
    /// When the prediction is made.
    pub pred_ms: i64,
    /// 1 if the price went up.
    pub label_up: u8,
    pub rel_move: F,
    /// 1 if it hardly moved.
    pub near_tie: u8,
}

/// What a [`WindowLabel`] holds.
pub struct LabelView {
    pub symbol: Seq<char>,
    pub win_start_ms: i64,
    pub pred_ms: i64,
    pub label_up: u8,
    pub rel_move: Seq<char>,
    pub near_tie: u8,
}

impl View for WindowLabel<String> {
    type V = LabelView;

    open spec fn view(&self) -> LabelView {
        LabelView {
            symbol: self.symbol@,
            win_start_ms: self.win_start_ms,
            pred_ms: self.pred_ms,
            label_up: self.label_up,
            rel_move: self.rel_move@,
            near_tie: self.near_tie,
        }
    }
}

/// The view of a [`WindowLabel`] shows each field under its own name.
pub proof fn law_view_of_window_label(v: WindowLabel<String>)
    ensures
        v@.symbol == v.symbol@,
        v@.win_start_ms == v.win_start_ms,
        v@.pred_ms == v.pred_ms,
        v@.label_up == v.label_up,
        v@.rel_move == v.rel_move@,
        v@.near_tie == v.near_tie,
{
}

/// The field of a label that cannot be read.
#[derive(Debug, Clone, Copy, PartialEq, Eq, Structural)]
pub enum LabelField {
    Symbol,
    WinStartMs,
    PredMs,
    LabelUp,
    RelMove,
    NearTie,
}

/// The lowest eight bits of a number.
pub open spec fn low_byte_of(n: int) -> u8 {
    (n % 256) as u8
}

/// The lowest eight bits of a number are less than 256, and what is left of the
/// number is a multiple of 256.
pub proof fn law_low_byte_is_the_rest(n: int)
    ensures
        (n - low_byte_of(n)) % 256 == 0,
{
}

fn low_byte(n: i64) -> (r: u8)
    ensures
        r == low_byte_of(n as int),
{
    let m: i128 = n as i128;
    if m >= 0 {
        (m % 256) as u8
    } else {
        let k: i128 = (-m) % 256;
        if k == 0 {
            0
        } else {
            (256 - k) as u8
        }
    }
}

/// The text of a number, in quotes or bare.
pub open spec fn number_text(v: JsonView) -> Option<Seq<char>> {
    match v {
        JsonView::Text(s) => Some(s),
        JsonView::Number(s, _, _) => Some(s),
        _ => None,
    }
}

/// The label of a row.
pub open spec fn label_of(row: JsonView) -> Result<LabelView, LabelField> {
    let symbol = row.at("symbol"@).as_str();
    let win_start_ms = i64_of(row.at("win_start_ms"@));
    let pred_ms = i64_of(row.at("pred_ms"@));
    let label_up = i64_of(row.at("label_up"@));
    let rel_move = number_text(row.at("rel_move"@));
    let near_tie = i64_of(row.at("near_tie"@));
    if symbol is None {
        Err(LabelField::Symbol)
    } else if win_start_ms is None {
        Err(LabelField::WinStartMs)
    } else if pred_ms is None {
        Err(LabelField::PredMs)
    } else if label_up is None {
        Err(LabelField::LabelUp)
    } else if rel_move is None {
        Err(LabelField::RelMove)
    } else if near_tie is None {
        Err(LabelField::NearTie)
    } else {
        Ok(
            LabelView {
                symbol: symbol.unwrap(),
                win_start_ms: win_start_ms.unwrap() as i64,
                pred_ms: pred_ms.unwrap() as i64,
                label_up: low_byte_of(label_up.unwrap()),
                rel_move: rel_move.unwrap(),
                near_tie: low_byte_of(near_tie.unwrap()),
            },
        )
    }
}

/// A label is what its row says, field by field, and every field is needed.
pub proof fn law_label_is_what_its_row_says(
    row: JsonView,
    symbol: Seq<char>,
    win_start_ms: i64,
    pred_ms: i64,
    label_up: i64,
    near_tie: i64,
    rel_move: Seq<char>,
)
    requires
        row.at("symbol"@) == JsonView::Text(symbol),
        says(row.at("win_start_ms"@), win_start_ms),
        says(row.at("pred_ms"@), pred_ms),
        says(row.at("label_up"@), label_up),
        says(row.at("near_tie"@), near_tie),
        row.at("rel_move"@) == JsonView::Text(rel_move) || (row.at("rel_move"@) is Number && row.at(
            "rel_move"@,
        )->Number_0 == rel_move),
    ensures
        label_of(row) matches Ok(l) && l.symbol == symbol && l.win_start_ms == win_start_ms
            && l.pred_ms == pred_ms && l.rel_move == rel_move && (0 <= label_up < 256
            ==> l.label_up == label_up) && (0 <= near_tie < 256 ==> l.near_tie == near_tie),
{
}

/// A field that is missing is named.
pub proof fn law_missing_field_is_named(row: JsonView)
    ensures
        row.at("symbol"@) !is Text ==> label_of(row) == Err::<LabelView, LabelField>(
            LabelField::Symbol,
        ),
        label_of(row) == Err::<LabelView, LabelField>(LabelField::WinStartMs) ==> forall|n: i64|
            !#[trigger] says(row.at("win_start_ms"@), n),
        label_of(row) == Err::<LabelView, LabelField>(LabelField::PredMs) ==> forall|n: i64|
            !#[trigger] says(row.at("pred_ms"@), n),
        label_of(row) == Err::<LabelView, LabelField>(LabelField::LabelUp) ==> forall|n: i64|
            !#[trigger] says(row.at("label_up"@), n),
        label_of(row) == Err::<LabelView, LabelField>(LabelField::NearTie) ==> forall|n: i64|
            !#[trigger] says(row.at("near_tie"@), n),
        label_of(row) == Err::<LabelView, LabelField>(LabelField::RelMove) ==> row.at("rel_move"@)
            !is Text && row.at("rel_move"@) !is Number,
        label_of(row) is Ok ==> row.at("symbol"@) is Text && exists|n: i64| #[trigger]
            says(row.at("near_tie"@), n),
{
    if label_of(row) is Ok {
        let n = i64_of(row.at("near_tie"@)).unwrap() as i64;
        assert(says(row.at("near_tie"@), n));
    }
}

fn read_label(row: &Json) -> (r: Result<WindowLabel<String>, LabelField>)
    ensures
        (match r {
            Ok(l) => Ok(l@),
            Err(e) => Err(e),
        }) == label_of(row@),
{
    let symbol: String = match row.at("symbol").as_str() {
        Some(v) => v.to_owned(),
        None => {
            return Err(LabelField::Symbol);
        },
    };
    let win_start_ms: i64 = match json_i64(row.at("win_start_ms")) {
        Some(v) => v,
        None => {
            return Err(LabelField::WinStartMs);
        },
    };
    let pred_ms: i64 = match json_i64(row.at("pred_ms")) {
        Some(v) => v,
        None => {
            return Err(LabelField::PredMs);
        },
    };
    let label_up: i64 = match json_i64(row.at("label_up")) {
        Some(v) => v,
        None => {
            return Err(LabelField::LabelUp);
        },
    };
    let rel_move: String = match row.at("rel_move") {
        Json::Text(s) => s.clone(),
        Json::Number(n) => n.text.clone(),
        _ => {
            return Err(LabelField::RelMove);
        },
    };
    let near_tie: i64 = match json_i64(row.at("near_tie")) {
        Some(v) => v,
        None => {
            return Err(LabelField::NearTie);
        },
    };
    Ok(
        WindowLabel {
            symbol,
            win_start_ms,
            pred_ms,
            label_up: low_byte(label_up),
            rel_move,
            near_tie: low_byte(near_tie),
        },
    )
}

/// Reads the labels of the rows; the first row that cannot be read is the error,
/// with the field that is to blame.
pub fn read_labels(rows: &Vec<Json>) -> (r: Result<Vec<WindowLabel<String>>, (usize, LabelField)>)
    ensures
        (match r {
            Ok(v) => Ok(views(v@)),
            Err(e) => Err((e.0 as int, e.1)),
        }) == all_of(views(rows@), |row: JsonView| label_of(row)),
{
    let ghost all = views(rows@);
    let ghost f = |row: JsonView| label_of(row);
    let mut out: Vec<WindowLabel<String>> = Vec::new();
    assert(views(out@) =~= Seq::empty());
    assert(all.take(0) =~= Seq::empty());
    let mut i: usize = 0;
    while i < rows.len()
        invariant
            all == views(rows@),
            f == (|row: JsonView| label_of(row)),
            i <= rows@.len(),
            Ok::<Seq<LabelView>, (int, LabelField)>(views(out@)) == all_of(all.take(i as int), f),
        decreases rows@.len() - i,
    {
        let ghost before = out@;
        assert(all[i as int] == rows@[i as int]@);
        assert(all.take(i + 1).drop_last() =~= all.take(i as int));
        proof {
            lemma_bad_row_stays(all, f, i + 1);
        }
        match read_label(&rows[i]) {
            Ok(l) => {
                out.push(l);
                assert(views(out@) =~= views(before).push(l@));
            },
            Err(field) => {
                return Err((i, field));
            },
        }
        i = i + 1;
    }
    assert(all.take(all.len() as int) =~= all);
    Ok(out)
}

/// The query for the labels of all windows that have ended by `now_ms`: before
/// that the closing price is not known.
pub fn labels_sql(now_ms: i64) -> (r: String)
    ensures
        r@
            == "SELECT symbol, win_start_ms, pred_ms, label_up, rel_move, near_tie FROM pm.training_windows WHERE win_end_ms <= "@
            + int_text(now_ms as int)
            + " ORDER BY win_start_ms ASC, symbol ASC FORMAT JSONEachRow"@,
{
    let mut sql: String =
        "SELECT symbol, win_start_ms, pred_ms, label_up, rel_move, near_tie FROM pm.training_windows WHERE win_end_ms <= ".to_owned();
    push_int(&mut sql, now_ms as i128);
    sql.append(" ORDER BY win_start_ms ASC, symbol ASC FORMAT JSONEachRow");
    sql
}

/// The names, each behind a comma.
pub open spec fn with_commas(names: Seq<Seq<char>>) -> Seq<char>
    decreases names.len(),
{
    if names.len() == 0 {
        Seq::empty()
    } else {
        with_commas(names.drop_last()) + ","@ + names.last()
    }
}

/// Each name stands behind a comma of its own, in order.
pub proof fn law_names_behind_commas(names: Seq<Seq<char>>, name: Seq<char>)
    ensures
        with_commas(Seq::empty()).len() == 0,
        with_commas(names.push(name)) == with_commas(names) + seq![','] + name,
{
    reveal_strlit(",");
    assert(","@ =~= seq![',']);
    assert(names.push(name).drop_last() =~= names);
}

/// The first line of the file of training samples.
pub fn csv_header() -> (r: String)
    ensures
        r@ == "symbol,win_start_ms"@ + with_commas(texts_of(FEATURE_NAMES@))
            + ",label_up,rel_move,near_tie"@,
{
    let ghost names = texts_of(FEATURE_NAMES@);
    let ghost start = "symbol,win_start_ms"@;
    let mut line: String = "symbol,win_start_ms".to_owned();
    assert(names.take(0) =~= Seq::empty());
    assert(line@ =~= start + with_commas(names.take(0)));
    let mut i: usize = 0;
    while i < FEATURE_COUNT
        invariant
            names == texts_of(FEATURE_NAMES@),
            start == "symbol,win_start_ms"@,
            FEATURE_NAMES@.len() == FEATURE_COUNT,
            i <= FEATURE_COUNT,
            line@ == start + with_commas(names.take(i as int)),
        decreases FEATURE_COUNT - i,
    {
        let list: &[&'static str] = &FEATURE_NAMES;
        line.append(",");
        line.append(list[i]);
        assert(names.take(i + 1).drop_last() =~= names.take(i as int));
        assert(names.take(i + 1).last() == names[i as int]);
        assert(line@ =~= start + with_commas(names.take(i + 1)));
        i = i + 1;
    }
    assert(names.take(FEATURE_COUNT as int) =~= names);
    line.append(",label_up,rel_move,near_tie");
    line
}

/// The start of a window that is certain to be complete at `now_ms`: the one
/// before the last.
pub fn complete_window(now_ms: i64) -> (r: i64)
    requires
        win_start_of(now_ms) - 600_000 >= i64::MIN,
    ensures
        r == win_start_of(now_ms) - 600_000,
{
    (win_start(now_ms) as i128 - 600_000) as i64
}

} // verus!
