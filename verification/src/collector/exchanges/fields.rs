//! What the fields of a message say, as the laws of the parsers put it.

use vstd::prelude::*;
use vstd::string::*;

use super::util::{
    dec_of, dec_or_zero_of, iso_ms_of, ladder_of, level_of, level_or_zero, lookup, rfc3339_ms, s_of,
    side_of, top_of, ts_of,
};
use crate::decimal::{decimal_text, DecimalView};
use crate::json::JsonView;
use crate::numbers::signed_text;
use crate::seqs::{at_most_one, gather, lemma_gather_append, lemma_gather_each, lemma_gather_one};
use crate::text::{ascii_lower, contains_text, stands_at};
use crate::types::{Level, TradeSide};

verus! {

/// The coins that are followed: their names in capitals and in small letters.
pub open spec fn coin(up: Seq<char>, low: Seq<char>) -> bool {
    ||| up == "BTC"@ && low == "btc"@
    ||| up == "ETH"@ && low == "eth"@
    ||| up == "SOL"@ && low == "sol"@
    ||| up == "XRP"@ && low == "xrp"@
    ||| up == "DOGE"@ && low == "doge"@
}

/// The value is the number `d`, in quotes or bare.
pub open spec fn stands_for(v: JsonView, d: DecimalView) -> bool {
    match v {
        JsonView::Text(s) => decimal_text(s) == Some(d),
        JsonView::Number(s, _, _) => decimal_text(s) == Some(d),
        _ => false,
    }
}

/// The value is no number.
pub open spec fn is_no_number(v: JsonView) -> bool {
    forall|d: DecimalView| !#[trigger] stands_for(v, d)
}

/// The value is the quantity `q`; where it is no number, `q` is zero.
pub open spec fn is_qty(v: JsonView, q: DecimalView) -> bool {
    stands_for(v, q) || (is_no_number(v) && q == DecimalView {
        negative: false,
        magnitude: 0,
        scale: 0,
    })
}

/// The value is the time `t`: a number, or digits in quotes.
pub open spec fn tells(v: JsonView, t: i64) -> bool {
    match v {
        JsonView::Number(_, n, _) => n == Some(t),
        JsonView::Text(s) => signed_text(s) == Some(t as int),
        _ => false,
    }
}

/// The value is the time `t`; where it tells none, `t` is `fallback`.
pub open spec fn is_time(v: JsonView, fallback: i64, t: i64) -> bool {
    tells(v, t) || ((forall|u: i64| !#[trigger] tells(v, u)) && t == fallback)
}

/// The value is the time `t` in RFC 3339 form; where it is none, `t` is
/// `fallback`.
pub open spec fn is_iso_time(v: JsonView, fallback: i64, t: i64) -> bool {
    match v {
        JsonView::Text(s) => match rfc3339_ms(s) {
            Some(u) => t == u,
            None => t == fallback,
        },
        _ => t == fallback,
    }
}

/// The value is written `s`, in quotes or bare; `s` is empty where it is neither
/// a text nor a number.
pub open spec fn is_written(v: JsonView, s: Seq<char>) -> bool {
    match v {
        JsonView::Text(x) => s == x,
        JsonView::Number(x, _, _) => s == x,
        _ => s.len() == 0,
    }
}

/// The value is a level: a list of a price, a quantity and perhaps more.
pub open spec fn is_level(v: JsonView, l: Level) -> bool {
    v matches JsonView::List(items) && items.len() >= 2 && stands_for(items[0], l.0) && is_qty(
        items[1],
        l.1,
    )
}

/// The value is a ladder, a list of the levels `ladder`.
pub open spec fn is_ladder(v: JsonView, ladder: Seq<Level>) -> bool {
    v matches JsonView::List(items) && items.len() == ladder.len() && forall|i: int|
        0 <= i < items.len() ==> is_level(#[trigger] items[i], ladder[i])
}

/// The word names the side, in capitals or small letters.
pub open spec fn names_side(word: Seq<char>, side: TradeSide) -> bool {
    let w = ascii_lower(word);
    match side {
        TradeSide::Buy => w == "buy"@ || w == "b"@ || w == "bid"@,
        TradeSide::Sell => w == "sell"@ || w == "s"@ || w == "ask"@ || w == "offer"@,
    }
}

/// The fields of a message are read as what they say, whatever the message.
pub proof fn law_fields_are_read_as_what_they_say(v: JsonView, fallback: i64)
    ensures
        forall|d: DecimalView| #[trigger] stands_for(v, d) <==> dec_of(v) == Some(d),
        is_no_number(v) <==> dec_of(v) is None,
        is_qty(v, dec_or_zero_of(v)),
        forall|q: DecimalView| #[trigger] is_qty(v, q) ==> q == dec_or_zero_of(v),
        is_time(v, fallback, ts_of(v, fallback)),
        forall|t: i64| #[trigger] is_time(v, fallback, t) ==> t == ts_of(v, fallback),
        is_iso_time(v, fallback, iso_ms_of(v, fallback)),
        is_written(v, s_of(v)),
{
    if dec_of(v) is Some {
        assert(stands_for(v, dec_of(v).unwrap()));
    }
    let t = ts_of(v, fallback);
    if exists|u: i64| #[trigger] tells(v, u) {
        let u = choose|u: i64| #[trigger] tells(v, u);
        assert(t == u);
    }
    assert(is_written(v, s_of(v)));
}

/// A level is a price and a quantity, in this order; what has no price is none.
pub proof fn law_levels_are_price_and_quantity(v: JsonView, l: Level)
    ensures
        is_level(v, l) <==> level_of(v) == Some(l),
{
    if let JsonView::List(items) = v {
        if items.len() >= 2 {
            law_fields_are_read_as_what_they_say(items[0], 0);
            law_fields_are_read_as_what_they_say(items[1], 0);
            assert(is_qty(items[1], dec_or_zero_of(items[1])));
            if is_level(v, l) {
                assert(stands_for(items[0], l.0));
            }
            if level_of(v) == Some(l) {
                assert(stands_for(items[0], l.0));
            }
        }
    }
}

/// A ladder is read level by level, in order.
pub proof fn law_ladders_are_read_level_by_level(v: JsonView, ladder: Seq<Level>)
    requires
        is_ladder(v, ladder),
    ensures
        ladder_of(v) == ladder,
        ladder.len() > 0 ==> level_or_zero(top_of(v)) == ladder[0],
{
    let items = v->List_0;
    let f = |x: JsonView| at_most_one(level_of(x));
    assert forall|i: int| 0 <= i < items.len() implies f(#[trigger] items[i])
        == seq![ladder[i]] by {
        law_levels_are_price_and_quantity(items[i], ladder[i]);
    }
    lemma_gather_each(items, f, ladder);
    if ladder.len() > 0 {
        law_levels_are_price_and_quantity(items[0], ladder[0]);
    }
}

/// A level that cannot be read is left out, and does not spoil the others: what
/// stands before it and behind it is read as if it were not there.
pub proof fn law_unreadable_levels_are_left_out(
    before: Seq<JsonView>,
    bad: JsonView,
    behind: Seq<JsonView>,
)
    requires
        forall|l: Level| !#[trigger] is_level(bad, l),
    ensures
        ladder_of(JsonView::List(before + seq![bad] + behind)) == ladder_of(
            JsonView::List(before + behind),
        ),
{
    let f = |x: JsonView| at_most_one(level_of(x));
    if level_of(bad) is Some {
        law_levels_are_price_and_quantity(bad, level_of(bad).unwrap());
        assert(is_level(bad, level_of(bad).unwrap()));
    }
    lemma_gather_append(before + seq![bad], behind, f);
    lemma_gather_append(before, seq![bad], f);
    lemma_gather_one(bad, f);
    lemma_gather_append(before, behind, f);
    assert(gather(before, f) + f(bad) =~= gather(before, f));
}

/// What is no list is no ladder: it has no levels.
pub proof fn law_no_list_no_levels(v: JsonView)
    requires
        v !is List,
    ensures
        ladder_of(v).len() == 0,
        top_of(v) is None,
{
}

/// A side is read from its names, and from nothing else.
pub proof fn law_sides_are_read_from_their_names(word: Seq<char>, side: TradeSide)
    ensures
        side_of(word) == Some(side) <==> names_side(word, side),
{
    reveal_strlit("buy");
    reveal_strlit("b");
    reveal_strlit("bid");
    reveal_strlit("sell");
    reveal_strlit("s");
    reveal_strlit("ask");
    reveal_strlit("offer");
    assert("buy"@[0] == 'b' && "b"@[0] == 'b' && "bid"@[0] == 'b');
    assert("sell"@[0] == 's' && "s"@[0] == 's' && "ask"@[0] == 'a' && "offer"@[0] == 'o');
}

/// A table is searched from the front.
pub proof fn lemma_lookup_at(table: Seq<(Seq<char>, Seq<char>)>, key: Seq<char>, i: int)
    requires
        0 <= i <= table.len(),
        forall|j: int| 0 <= j < i ==> (#[trigger] table[j]).0 != key,
        i < table.len() ==> table[i].0 == key,
    ensures
        lookup(table, key) == (if i < table.len() {
            Some(table[i].1)
        } else {
            None
        }),
    decreases i,
{
    if i > 0 {
        let rest = table.drop_first();
        assert forall|j: int| 0 <= j < i - 1 implies (#[trigger] rest[j]).0 != key by {
            assert(rest[j] == table[j + 1]);
        }
        assert(table[0].0 != key);
        lemma_lookup_at(rest, key, i - 1);
    }
}

/// The coins are told apart by their first letters, which stand in the order of
/// the table below.
pub open spec fn coin_names(i: int) -> (Seq<char>, Seq<char>) {
    if i == 0 {
        ("BTC"@, "btc"@)
    } else if i == 1 {
        ("ETH"@, "eth"@)
    } else if i == 2 {
        ("SOL"@, "sol"@)
    } else if i == 3 {
        ("XRP"@, "xrp"@)
    } else {
        ("DOGE"@, "doge"@)
    }
}

pub proof fn lemma_coins()
    ensures
        forall|up: Seq<char>, low: Seq<char>| #[trigger]
            coin(up, low) <==> exists|i: int|
                0 <= i < 5 && #[trigger] coin_names(i) == (up, low),
        forall|i: int, j: int|
            #![trigger coin_names(i), coin_names(j)]
            0 <= i < j < 5 ==> coin_names(i).0[0] != coin_names(j).0[0] && coin_names(i).1[0]
                != coin_names(j).1[0],
        forall|i: int|
            0 <= i < 5 ==> (#[trigger] coin_names(i)).0.len() >= 3 && coin_names(i).1.len() >= 3,
{
    reveal_strlit("BTC");
    reveal_strlit("ETH");
    reveal_strlit("SOL");
    reveal_strlit("XRP");
    reveal_strlit("DOGE");
    reveal_strlit("btc");
    reveal_strlit("eth");
    reveal_strlit("sol");
    reveal_strlit("xrp");
    reveal_strlit("doge");
    assert(coin_names(0).0[0] == 'B' && coin_names(0).1[0] == 'b');
    assert(coin_names(1).0[0] == 'E' && coin_names(1).1[0] == 'e');
    assert(coin_names(2).0[0] == 'S' && coin_names(2).1[0] == 's');
    assert(coin_names(3).0[0] == 'X' && coin_names(3).1[0] == 'x');
    assert(coin_names(4).0[0] == 'D' && coin_names(4).1[0] == 'd');
    assert forall|up: Seq<char>, low: Seq<char>| #[trigger] coin(up, low) implies exists|i: int|
        0 <= i < 5 && #[trigger] coin_names(i) == (up, low) by {
        if up == "BTC"@ && low == "btc"@ {
            assert(coin_names(0) == (up, low));
        } else if up == "ETH"@ && low == "eth"@ {
            assert(coin_names(1) == (up, low));
        } else if up == "SOL"@ && low == "sol"@ {
            assert(coin_names(2) == (up, low));
        } else if up == "XRP"@ && low == "xrp"@ {
            assert(coin_names(3) == (up, low));
        } else {
            assert(coin_names(4) == (up, low));
        }
    }
}

/// A table that names the coins in capitals or in small letters, each with
/// `suffix` behind it, gives each of these names its symbol, and nothing to any
/// other name.
pub proof fn lemma_table_of_coins(
    table: Seq<(Seq<char>, Seq<char>)>,
    capitals: bool,
    suffix: Seq<char>,
    key: Seq<char>,
)
    requires
        table.len() == 5,
        forall|i: int|
            0 <= i < 5 ==> (#[trigger] table[i]).0 == (if capitals {
                coin_names(i).0
            } else {
                coin_names(i).1
            }) + suffix && table[i].1 == coin_names(i).1 + "/usd"@,
    ensures
        forall|up: Seq<char>, low: Seq<char>| #[trigger]
            coin(up, low) && key == (if capitals {
                up
            } else {
                low
            }) + suffix ==> lookup(table, key) == Some(low + "/usd"@),
        lookup(table, key) is Some ==> exists|up: Seq<char>, low: Seq<char>| #[trigger]
            coin(up, low) && key == (if capitals {
                up
            } else {
                low
            }) + suffix && lookup(table, key) == Some(low + "/usd"@),
{
    lemma_coins();
    assert forall|i: int, j: int| 0 <= i < j < 5 implies (#[trigger] table[i]).0 != (
    #[trigger] table[j]).0 by {
        assert(table[i].0[0] == (if capitals {
            coin_names(i).0
        } else {
            coin_names(i).1
        })[0]);
        assert(table[j].0[0] == (if capitals {
            coin_names(j).0
        } else {
            coin_names(j).1
        })[0]);
    }
    assert forall|up: Seq<char>, low: Seq<char>| #[trigger]
        coin(up, low) && key == (if capitals {
            up
        } else {
            low
        }) + suffix implies lookup(table, key) == Some(low + "/usd"@) by {
        let i = choose|i: int| 0 <= i < 5 && #[trigger] coin_names(i) == (up, low);
        assert(table[i].0 == key);
        assert forall|j: int| 0 <= j < i implies (#[trigger] table[j]).0 != key by {
            assert(table[j].0 != table[i].0);
        }
        lemma_lookup_at(table, key, i);
    }
    if exists|i: int| 0 <= i < 5 && (#[trigger] table[i]).0 == key {
        let i = choose|i: int| 0 <= i < 5 && (#[trigger] table[i]).0 == key;
        assert(coin(coin_names(i).0, coin_names(i).1));
    } else {
        lemma_lookup_at(table, key, 5);
    }
}

/// A text without the letter `c` does not hold a text with it.
pub proof fn lemma_lacks(s: Seq<char>, pat: Seq<char>, k: int)
    requires
        0 <= k < pat.len(),
        forall|i: int| 0 <= i < s.len() ==> #[trigger] s[i] != pat[k],
    ensures
        !contains_text(s, pat),
{
    if contains_text(s, pat) {
        let i = choose|i: int| stands_at(s, pat, i);
        assert(s.subrange(i, i + pat.len())[k] == s[i + k]);
    }
}

/// A text holds what stands behind its start.
pub proof fn lemma_holds(start: Seq<char>, pat: Seq<char>, rest: Seq<char>)
    ensures
        contains_text(start + pat + rest, pat),
{
    let s = start + pat + rest;
    let i = start.len() as int;
    assert(s.subrange(i, i + pat.len()) =~= pat);
    assert(stands_at(s, pat, i));
}

} // verus!
