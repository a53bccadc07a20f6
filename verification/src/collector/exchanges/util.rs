//! What the parsers of all exchanges share.

use vstd::prelude::*;

use crate::decimal::{
    decimal_print, decimal_text, is_usual, parts, spelled, spells, zero, Decimal, DecimalView,
};
use crate::json::{Json, JsonView};
use crate::numbers::{digits_value, in_range, parse_i64, signed_text};
use crate::seqs::{at_most_one, gather, lemma_gather_step};
use crate::text::{ascii_lower, same, to_ascii_lower};
use crate::types::{levels, Level, TradeSide};

verus! {

/// What a value that may be missing is: `Null` where it is.
pub open spec fn node(v: Option<&Json>) -> JsonView {
    match v {
        Some(j) => j@,
        None => JsonView::Null,
    }
}

/// The number that a quoted or a bare number stands for.
pub open spec fn dec_of(v: JsonView) -> Option<DecimalView> {
    match v {
        JsonView::Text(s) => decimal_text(s),
        JsonView::Number(s, _, _) => decimal_text(s),
        _ => None,
    }
}

/// As [`dec_of`], with zero where there is no number.
pub open spec fn dec_or_zero_of(v: JsonView) -> DecimalView {
    match dec_of(v) {
        Some(d) => d,
        None => zero(),
    }
}

/// Price and quantity of a level `[price, qty, ...]`.
pub open spec fn level_of(v: JsonView) -> Option<Level> {
    match v.as_list() {
        Some(l) if l.len() >= 2 => match dec_of(l[0]) {
            Some(p) => Some((p, dec_or_zero_of(l[1]))),
            None => None,
        },
        _ => None,
    }
}

/// The first level of a ladder `[[price, qty, ...], ...]`.
pub open spec fn top_of(v: JsonView) -> Option<Level> {
    match v.as_list() {
        Some(l) if l.len() >= 1 => level_of(l[0]),
        _ => None,
    }
}

/// A level that may be missing; zero on zero where it is.
pub open spec fn level_or_zero(l: Option<Level>) -> Level {
    match l {
        Some(l) => l,
        None => (zero(), zero()),
    }
}

/// The levels of a ladder that can be read, in order.
pub open spec fn ladder_of(v: JsonView) -> Seq<Level> {
    match v.as_list() {
        Some(l) => gather(l, |x: JsonView| at_most_one(level_of(x))),
        None => Seq::empty(),
    }
}

/// A time that comes as a number or as digits in quotes.
pub open spec fn ts_of(v: JsonView, fallback: i64) -> i64 {
    match v {
        JsonView::Number(_, Some(n), _) => n,
        JsonView::Text(s) => match in_range(signed_text(s), i64::MIN as int, i64::MAX as int) {
            Some(n) => n as i64,
            None => fallback,
        },
        _ => fallback,
    }
}

/// What `chrono::DateTime::parse_from_rfc3339` reads from a text, in
/// milliseconds since 1970.
pub uninterp spec fn rfc3339_ms(s: Seq<char>) -> Option<i64>;

/// A time in RFC 3339 form, in milliseconds since 1970.
pub open spec fn iso_ms_of(v: JsonView, fallback: i64) -> i64 {
    match v {
        JsonView::Text(s) => match rfc3339_ms(s) {
            Some(ms) => ms,
            None => fallback,
        },
        _ => fallback,
    }
}

/// The text of a quoted text or a number; empty for anything else.
pub open spec fn s_of(v: JsonView) -> Seq<char> {
    match v {
        JsonView::Text(s) => s,
        JsonView::Number(s, _, _) => s,
        _ => Seq::empty(),
    }
}

/// The side that `raw` names, in capitals or small letters.
pub open spec fn side_of(raw: Seq<char>) -> Option<TradeSide> {
    let low = ascii_lower(raw);
    if low == "buy"@ || low == "b"@ || low == "bid"@ {
        Some(TradeSide::Buy)
    } else if low == "sell"@ || low == "s"@ || low == "ask"@ || low == "offer"@ {
        Some(TradeSide::Sell)
    } else {
        None
    }
}

/// A text value; empty where it is none.
pub open spec fn word_of(v: JsonView) -> Seq<char> {
    match v {
        JsonView::Text(s) => s,
        _ => Seq::empty(),
    }
}

/// A table of texts, each with the text that it stands for.
pub open spec fn pairs(table: Seq<(&'static str, &'static str)>) -> Seq<(Seq<char>, Seq<char>)> {
    table.map_values(|p: (&'static str, &'static str)| (p.0@, p.1@))
}

/// What the first pair with the key `key` says.
pub open spec fn lookup(table: Seq<(Seq<char>, Seq<char>)>, key: Seq<char>) -> Option<Seq<char>>
    decreases table.len(),
{
    if table.len() == 0 {
        None
    } else if table[0].0 == key {
        Some(table[0].1)
    } else {
        lookup(table.drop_first(), key)
    }
}

proof fn lemma_lookup_skip(table: Seq<(Seq<char>, Seq<char>)>, key: Seq<char>, n: int)
    requires
        0 <= n <= table.len(),
        forall|i: int| 0 <= i < n ==> table[i].0 != key,
    ensures
        lookup(table, key) == lookup(table.skip(n), key),
    decreases n,
{
    if n == 0 {
        assert(table.skip(0) =~= table);
    } else {
        lemma_lookup_skip(table.drop_first(), key, n - 1);
        assert(table.drop_first().skip(n - 1) =~= table.skip(n));
    }
}

/// Reads a number that stands in quotes or bare. Exchanges quote prices to keep
/// every digit, and every digit is kept.
pub fn dec(v: &Json) -> (r: Option<Decimal>)
    ensures
        parts(r) == dec_of(v@),
        forall|negative: bool, whole: Seq<char>, frac: Seq<char>|
            #[trigger] spells(s_of(v@), negative, whole, frac) && spelled(negative, whole, frac).wf()
                && is_usual(whole) && (negative ==> digits_value(whole + frac) > 0) ==> r is Some
                && decimal_print(r.unwrap()@) == s_of(v@),
{
    match v {
        Json::Text(s) => Decimal::parse(s.as_str()),
        Json::Number(n) => Decimal::parse(n.text.as_str()),
        _ => None,
    }
}

/// As [`dec`], with zero where there is no number: for quantities, of which a
/// missing one means none.
pub fn dec_or_zero(v: &Json) -> (r: Decimal)
    ensures
        r@ == dec_or_zero_of(v@),
{
    match dec(v) {
        Some(d) => d,
        None => Decimal::zero(),
    }
}

fn level(v: &Json) -> (r: Option<[Decimal; 2]>)
    ensures
        (match r {
            Some(l) => Some((l@[0]@, l@[1]@)),
            None => None,
        }) == level_of(v@),
{
    match v.as_list() {
        Some(l) => {
            if l.len() < 2 {
                return None;
            }
            match dec(&l[0]) {
                Some(p) => Some([p, dec_or_zero(&l[1])]),
                None => None,
            }
        },
        None => None,
    }
}

/// The price and the quantity of the first level of a ladder.
pub fn top_level(ladder: Option<&Json>) -> (r: Option<(Decimal, Decimal)>)
    ensures
        (match r {
            Some(l) => Some((l.0@, l.1@)),
            None => None,
        }) == top_of(node(ladder)),
{
    match ladder {
        Some(v) => match v.as_list() {
            Some(l) => {
                if l.len() == 0 {
                    return None;
                }
                match level(&l[0]) {
                    Some(pq) => Some((pq[0], pq[1])),
                    None => None,
                }
            },
            None => None,
        },
        None => None,
    }
}

/// The levels of a ladder. A level that cannot be read is left out, and does
/// not spoil the others.
pub fn ladder(v: Option<&Json>) -> (r: Vec<[Decimal; 2]>)
    ensures
        levels(r@) == ladder_of(node(v)),
{
    let mut out: Vec<[Decimal; 2]> = Vec::new();
    assert(levels(out@) =~= Seq::empty());
    let list: &Vec<Json> = match v {
        Some(j) => match j.as_list() {
            Some(l) => l,
            None => {
                return out;
            },
        },
        None => {
            return out;
        },
    };
    let ghost items = list@.map_values(|j: Json| j@);
    let ghost f = |x: JsonView| at_most_one(level_of(x));
    assert(items.take(0) =~= Seq::empty());
    let mut i: usize = 0;
    while i < list.len()
        invariant
            items == list@.map_values(|j: Json| j@),
            f == (|x: JsonView| at_most_one(level_of(x))),
            i <= list@.len(),
            levels(out@) == gather(items.take(i as int), f),
        decreases list@.len() - i,
    {
        proof {
            lemma_gather_step(items, f, i as int);
        }
        let ghost before = out@;
        match level(&list[i]) {
            Some(l) => {
                out.push(l);
                assert(levels(out@) =~= levels(before) + seq![(l@[0]@, l@[1]@)]);
            },
            None => {
                assert(levels(out@) =~= levels(before) + Seq::empty());
            },
        }
        i = i + 1;
    }
    assert(items.take(items.len() as int) =~= items);
    out
}

/// A time that comes as a number or as digits in quotes; `fallback` where it is
/// neither.
pub fn ts(v: Option<&Json>, fallback: i64) -> (r: i64)
    ensures
        r == ts_of(node(v), fallback),
{
    match v {
        Some(Json::Number(n)) => match n.signed {
            Some(t) => t,
            None => fallback,
        },
        Some(Json::Text(s)) => match parse_i64(s.as_str()) {
            Some(t) => t,
            None => fallback,
        },
        _ => fallback,
    }
}

/// Reads a time with `chrono::DateTime::parse_from_rfc3339` and
/// `timestamp_millis`. The result depends on the text alone.
#[verifier::external_body]
fn rfc3339(s: &str) -> (r: Option<i64>)
    ensures
        r == rfc3339_ms(s@),
{
    chrono::DateTime::parse_from_rfc3339(s).ok().map(|d| d.timestamp_millis())
}

/// A time in RFC 3339 form, in milliseconds since 1970; `fallback` where there
/// is none.
pub fn iso_ms(v: Option<&Json>, fallback: i64) -> (r: i64)
    ensures
        r == iso_ms_of(node(v), fallback),
{
    match v {
        Some(Json::Text(s)) => match rfc3339(s.as_str()) {
            Some(t) => t,
            None => fallback,
        },
        _ => fallback,
    }
}

/// The text of a field; empty where it has none.
pub fn s(v: Option<&Json>) -> (r: String)
    ensures
        r@ == s_of(node(v)),
{
    match v {
        Some(Json::Text(x)) => x.clone(),
        Some(Json::Number(n)) => n.text.clone(),
        _ => String::new(),
    }
}

/// A text value; empty where it is none.
pub fn word(v: &Json) -> (r: &str)
    ensures
        r@ == word_of(v@),
{
    match v.as_str() {
        Some(w) => w,
        None => {
            proof {
                reveal_strlit("");
            }
            assert(""@ =~= Seq::empty());
            ""
        },
    }
}

/// The side of the taker, in any of the spellings of the exchanges. A word that
/// is none of them gives no side: a wrong side does more harm than a missing
/// row.
pub fn side(raw: &str) -> (r: Option<TradeSide>)
    ensures
        r == side_of(raw@),
{
    let low: String = to_ascii_lower(raw);
    let w: &str = low.as_str();
    if same(w, "buy") || same(w, "b") || same(w, "bid") {
        Some(TradeSide::Buy)
    } else if same(w, "sell") || same(w, "s") || same(w, "ask") || same(w, "offer") {
        Some(TradeSide::Sell)
    } else {
        None
    }
}

/// The symbol that an exchange's own name stands for.
pub fn sym_lookup(table: &[(&'static str, &'static str)], key: &str) -> (r: Option<&'static str>)
    ensures
        (match r {
            Some(v) => Some(v@),
            None => None,
        }) == lookup(pairs(table@), key@),
{
    let mut i: usize = 0;
    while i < table.len()
        invariant
            i <= table@.len(),
            forall|k: int| 0 <= k < i ==> table@[k].0@ != key@,
        decreases table@.len() - i,
    {
        proof {
            lemma_lookup_skip(pairs(table@), key@, i as int);
        }
        if same(table[i].0, key) {
            return Some(table[i].1);
        }
        i = i + 1;
    }
    proof {
        lemma_lookup_skip(pairs(table@), key@, i as int);
    }
    None
}

} // verus!
