//! The feed of the price oracle.
//!
//! The feed sends, once a second and for each symbol, the mean price of the last
//! 30 seconds. It cannot be asked again for a value that was missed, so every
//! value that can be read is mirrored to disk, and those of the target symbols
//! go to the database as well.

use vstd::arithmetic::power::pow;
use vstd::prelude::*;
use vstd::string::*;

use super::config::{words, Config};
use super::session::{stale_reason, stale_text, with_detail, Event, Tick, Watch};
use super::sink::{twap_row, TwapRow, TwapRowView};
use crate::decimal::{
    decimal_quotient, decimal_text, e18, whole_number, zero, Decimal, DecimalView, MAX_SCALE,
};
use crate::json::{json_text, parse_json, Json, JsonView};
use crate::numbers::{in_range, int_text, parse_i128, signed_text};
use crate::seqs::view_of;
use crate::text::{is_empty, lowercase, same, to_lower, trim, trimmed};
use crate::types::{TwapRecord, TwapView};

verus! {

/// The topic that is asked for.
pub const TOPIC: &'static str = "crypto_prices_twap_thirty";

/// The length of the mean where a message does not say it, in seconds.
pub const WINDOW_S_DEFAULT: u16 = 30;

/// The frame that subscribes: no filter, since symbols are told apart here.
pub fn subscribe_msg() -> (r: String)
    ensures
        r@ == "{\"action\":\"subscribe\",\"subscriptions\":[{\"topic\":\""@ + TOPIC@
            + "\",\"type\":\"update\"}]}"@,
{
    let mut msg: String = "{\"action\":\"subscribe\",\"subscriptions\":[{\"topic\":\"".to_owned();
    msg.append(TOPIC);
    msg.append("\",\"type\":\"update\"}]}");
    msg
}

/// The price of a value that is written times ten to the 18; zero where the
/// value is too long for a decimal.
pub open spec fn price_of(value_e18: Seq<char>) -> DecimalView {
    match decimal_text(value_e18) {
        Some(v) => match decimal_quotient(v, e18()) {
            Some(price) => price,
            None => zero(),
        },
        None => zero(),
    }
}

/// A time, or `recv_ms` where there is none.
pub open spec fn time_of(v: JsonView, recv_ms: i64) -> i64 {
    match v.as_i64() {
        Some(t) => t,
        None => recv_ms,
    }
}

/// The length of the mean: the lowest 16 bits of the number that is given.
pub open spec fn window_of(v: JsonView) -> u16 {
    match v.as_u64() {
        Some(n) => (n % 0x1_0000) as u16,
        None => WINDOW_S_DEFAULT,
    }
}

/// The text is a number above zero that fits in 128 bits.
pub open spec fn is_price(value_e18: Seq<char>) -> bool {
    match in_range(signed_text(value_e18), i128::MIN as int, i128::MAX as int) {
        Some(n) => n > 0,
        None => false,
    }
}

/// The value that a message brings: one of the topic that was asked for, with a
/// symbol and a number above zero.
pub open spec fn update_of(msg: JsonView, recv_ms: i64) -> Option<TwapView> {
    let payload = msg.at("payload"@);
    match (payload.at("symbol"@).as_str(), payload.at("full_accuracy_value"@).as_str()) {
        (Some(symbol), Some(value)) => {
            if msg.at("topic"@).as_str() == Some(TOPIC@) && msg.at("type"@).as_str() == Some(
                "update"@,
            ) && lowercase(symbol).len() > 0 && is_price(trimmed(value)) {
                Some(
                    TwapView {
                        symbol: lowercase(symbol),
                        window_s: window_of(payload.at("window_s"@)),
                        obs_ms: time_of(payload.at("timestamp"@), recv_ms),
                        pub_ms: time_of(msg.at("timestamp"@), recv_ms),
                        recv_ms,
                        value_e18: trimmed(value),
                        price: price_of(trimmed(value)),
                    },
                )
            } else {
                None
            }
        },
        _ => None,
    }
}

/// Every value that is read can be written: its row holds the number that the
/// oracle wrote, digit by digit.
pub proof fn law_update_has_a_row(msg: JsonView, recv_ms: i64)
    requires
        update_of(msg, recv_ms) is Some,
    ensures
        ({
            let u = update_of(msg, recv_ms).unwrap();
            &&& twap_row(u) is Some
            &&& twap_row(u).unwrap().value_e18 == u.value_e18
            &&& Some(twap_row(u).unwrap().price as int) == signed_text(u.value_e18)
            &&& twap_row(u).unwrap().price > 0
        }),
{
}

fn time(v: &Json, recv_ms: i64) -> (r: i64)
    ensures
        r == time_of(v@, recv_ms),
{
    match v.as_i64() {
        Some(t) => t,
        None => recv_ms,
    }
}

/// The price is the number that `value_e18` spells, divided by ten to the 18: no
/// digit is lost. A number that is too long for a decimal, of more than 96 bits,
/// has no price: zero stands in its place.
pub open spec fn is_exact(value_e18: Seq<char>, price: DecimalView) -> bool {
    match signed_text(value_e18) {
        Some(n) => match whole_number(n) {
            Some(_) => price.value() * e18().magnitude == n * pow(10, MAX_SCALE as nat),
            None => price == zero(),
        },
        None => true,
    }
}

fn price(value_e18: &str) -> (r: Decimal)
    ensures
        r@ == price_of(value_e18@),
        is_exact(value_e18@, r@),
{
    match Decimal::parse(value_e18) {
        Some(v) => match Decimal::from_parts(1_000_000_000_000_000_000, 0) {
            Some(unit) => match v.over(&unit) {
                Some(price) => price,
                None => Decimal::zero(),
            },
            None => Decimal::zero(),
        },
        None => Decimal::zero(),
    }
}

/// Reads the value that a message brings. Its price is exact wherever a decimal
/// can hold the value, and zero where it is too long.
pub fn read_update(msg: &Json, recv_ms: i64) -> (r: Option<TwapRecord>)
    ensures
        view_of(r) == update_of(msg@, recv_ms),
        r is Some ==> is_exact(r.unwrap().value_e18@, r.unwrap().price@),
{
    match msg.at("topic").as_str() {
        Some(topic) => {
            if !same(topic, TOPIC) {
                return None;
            }
        },
        None => {
            return None;
        },
    }
    match msg.at("type").as_str() {
        Some(kind) => {
            if !same(kind, "update") {
                return None;
            }
        },
        None => {
            return None;
        },
    }
    let payload: &Json = msg.at("payload");
    let symbol: String = match payload.at("symbol").as_str() {
        Some(v) => to_lower(v),
        None => {
            return None;
        },
    };
    if is_empty(symbol.as_str()) {
        return None;
    }
    let value: &str = match payload.at("full_accuracy_value").as_str() {
        Some(v) => trim(v),
        None => {
            return None;
        },
    };
    match parse_i128(value) {
        Some(n) => {
            if n <= 0 {
                return None;
            }
        },
        None => {
            return None;
        },
    }
    let window_s: u16 = match payload.at("window_s").as_u64() {
        Some(n) => (n % 0x1_0000) as u16,
        None => WINDOW_S_DEFAULT,
    };
    Some(
        TwapRecord {
            symbol,
            window_s,
            obs_ms: time(payload.at("timestamp"), recv_ms),
            pub_ms: time(msg.at("timestamp"), recv_ms),
            recv_ms,
            value_e18: value.to_owned(),
            price: price(value),
        },
    )
}

/// The value that a text frame brings, by what `serde_json` reads from it.
pub open spec fn frame_update(raw: Seq<char>, recv_ms: i64) -> Option<TwapView> {
    match json_text(raw) {
        Some(msg) => update_of(msg, recv_ms),
        None => None,
    }
}

/// A frame brings a value exactly if it is an update of the topic of the mean
/// prices, with a symbol and, under `full_accuracy_value`, a number above zero.
/// The value is of this symbol in small letters, bears the digits of the number,
/// and has the times and the length of the mean that the message tells.
pub proof fn law_value_by_its_fields(
    raw: Seq<char>,
    msg: JsonView,
    recv_ms: i64,
    symbol: Seq<char>,
    value: Seq<char>,
)
    requires
        json_text(raw) == Some(msg),
        msg.at("payload"@).at("symbol"@) == JsonView::Text(symbol),
        msg.at("payload"@).at("full_accuracy_value"@) == JsonView::Text(value),
    ensures
        ({
            let payload = msg.at("payload"@);
            let r = frame_update(raw, recv_ms);
            let n = signed_text(trimmed(value));
            &&& r is Some <==> {
                &&& msg.at("topic"@) == JsonView::Text("crypto_prices_twap_thirty"@)
                &&& msg.at("type"@) == JsonView::Text("update"@)
                &&& lowercase(symbol).len() > 0
                &&& n is Some
                &&& 0 < n.unwrap() <= i128::MAX
            }
            &&& r is Some ==> ({
                let u = r.unwrap();
                &&& u.symbol == lowercase(symbol)
                &&& u.value_e18 == trimmed(value)
                &&& u.recv_ms == recv_ms
                &&& tells_time(payload.at("timestamp"@), recv_ms, u.obs_ms)
                &&& tells_time(msg.at("timestamp"@), recv_ms, u.pub_ms)
                &&& match payload.at("window_s"@) {
                    JsonView::Number(_, _, Some(s)) => u.window_s as int == s as int % 65_536,
                    _ => u.window_s == 30,
                }
                &&& u.price == price_of(u.value_e18)
            })
        }),
{
    let payload = msg.at("payload"@);
    if let JsonView::Number(_, _, Some(s)) = payload.at("window_s"@) {
        assert((s % 0x1_0000) as u16 as int == s as int % 65_536);
    }
}

/// The value is the time `t`, or, where it is no whole number, `t` is `recv_ms`.
pub open spec fn tells_time(v: JsonView, recv_ms: i64, t: i64) -> bool {
    match v {
        JsonView::Number(_, Some(n), _) => t == n,
        _ => t == recv_ms,
    }
}

/// Without a symbol or a number in quotes, and where it is no JSON, a frame
/// brings nothing.
pub proof fn law_other_frames_bring_nothing(raw: Seq<char>, recv_ms: i64)
    ensures
        json_text(raw) is None ==> frame_update(raw, recv_ms) is None,
        json_text(raw) matches Some(msg) ==> (msg.at("payload"@).at("symbol"@) !is Text || msg.at(
            "payload"@,
        ).at("full_accuracy_value"@) !is Text) ==> frame_update(raw, recv_ms) is None,
{
}

/// An exact price, times ten to the 18, is the number that the oracle wrote; a
/// number of more than 96 bits has the price zero.
pub proof fn law_exact_price_is_the_number_of_the_oracle(
    value_e18: Seq<char>,
    price: DecimalView,
    n: int,
)
    requires
        signed_text(value_e18) == Some(n),
        n >= 0,
        is_exact(value_e18, price),
        !price.negative,
    ensures
        n < 79_228_162_514_264_337_593_543_950_336 ==> price.magnitude * pow(
            10,
            (28 - price.scale) as nat,
        ) * 1_000_000_000_000_000_000 == n * pow(10, 28),
        n >= 79_228_162_514_264_337_593_543_950_336 ==> price.magnitude == 0,
{
}

/// Reads the value of a text frame that was received at `recv_ms`; `None` where
/// the frame brings none. The price of the value is exact wherever a decimal can
/// hold the value, and zero where it is too long.
pub fn parse_frame(raw: &str, recv_ms: i64) -> (r: Option<TwapRecord>)
    ensures
        view_of(r) == frame_update(raw@, recv_ms),
        r is Some ==> is_exact(r.unwrap().value_e18@, r.unwrap().price@),
{
    match parse_json(raw) {
        Some(msg) => read_update(&msg, recv_ms),
        None => None,
    }
}

// ── Sessions ────────────────────────────────────────────────────────────────

/// What is to be done.
#[derive(Debug)]
pub enum RtdsAction {
    /// Nothing.
    Wait,
    /// Mirror the value to disk, and hand its row to the writer where there is
    /// one.
    Store { record: TwapRecord, row: Option<TwapRow> },
    /// Send this text as a ping.
    Ping(String),
    /// Say how many frames came and how many records were dropped.
    Report { msgs: u64, dropped: u64 },
    /// End the session, for this reason; what waits is to be written at once.
    End(String),
}

/// What an [`RtdsAction`] holds.
pub enum RtdsActionView {
    Wait,
    Store { record: TwapView, row: Option<TwapRowView> },
    Ping(Seq<char>),
    Report { msgs: u64, dropped: u64 },
    End(Seq<char>),
}

impl View for RtdsAction {
    type V = RtdsActionView;

    open spec fn view(&self) -> RtdsActionView {
        match self {
            RtdsAction::Wait => RtdsActionView::Wait,
            RtdsAction::Store { record, row } => RtdsActionView::Store {
                record: record@,
                row: view_of(*row),
            },
            RtdsAction::Ping(t) => RtdsActionView::Ping(t@),
            RtdsAction::Report { msgs, dropped } => RtdsActionView::Report {
                msgs: *msgs,
                dropped: *dropped,
            },
            RtdsAction::End(t) => RtdsActionView::End(t@),
        }
    }
}

/// The view of an [`RtdsAction`] shows which it is, with what it holds.
pub proof fn law_view_of_action(a: RtdsAction)
    ensures
        match a {
            RtdsAction::Wait => a@ is Wait,
            RtdsAction::Store { record, row } => a@ == (RtdsActionView::Store {
                record: record@,
                row: view_of(row),
            }),
            RtdsAction::Ping(t) => a@ == RtdsActionView::Ping(t@),
            RtdsAction::Report { msgs, dropped } => a@ == (RtdsActionView::Report {
                msgs,
                dropped,
            }),
            RtdsAction::End(t) => a@ == RtdsActionView::End(t@),
        },
{
}

/// A frame that answers a ping or holds nothing but white space.
pub open spec fn is_idle_frame(raw: Seq<char>) -> bool {
    raw == "PONG"@ || trimmed(raw).len() == 0
}

/// What to do with the value of a frame: mirror it in any case, and write it if
/// its symbol is one of `targets`.
pub open spec fn stored(update: Option<TwapView>, targets: Seq<Seq<char>>) -> RtdsActionView {
    match update {
        Some(record) => RtdsActionView::Store {
            record,
            row: if targets.contains(lowercase(record.symbol)) {
                twap_row(record)
            } else {
                None
            },
        },
        None => RtdsActionView::Wait,
    }
}

/// What an event makes of a session, and what is to be done about it. `update`
/// reads the value of a text frame.
pub open spec fn next(
    w: Watch,
    e: Event<'_>,
    update: spec_fn(Seq<char>, i64) -> Option<TwapView>,
    targets: Seq<Seq<char>>,
) -> (Watch, RtdsActionView) {
    match e {
        Event::Proceed => (w, RtdsActionView::Wait),
        Event::Fetched { .. } => (w, RtdsActionView::Wait),
        Event::StreamClosed => (w, RtdsActionView::End("stream closed"@)),
        Event::Text { raw, recv_ms, now_ns } => {
            if is_idle_frame(raw@) {
                (Watch { last_ns: now_ns, ..w }, RtdsActionView::Wait)
            } else {
                (
                    Watch { last_ns: now_ns, msgs: (w.msgs + 1) as u64, ..w },
                    stored(update(raw@, recv_ms), targets),
                )
            }
        },
        Event::Alive { now_ns } => (Watch { last_ns: now_ns, ..w }, RtdsActionView::Wait),
        Event::CloseFrame { detail } => (w, RtdsActionView::End("close frame: "@ + detail@)),
        Event::Fragment => (w, RtdsActionView::Wait),
        Event::PingDue => (w, RtdsActionView::Ping("PING"@)),
        Event::PingFailed { error } => (w, RtdsActionView::End("ping failed: "@ + error@)),
        Event::ReplayDue { .. } => (w, RtdsActionView::Wait),
        Event::Second { now_ns, dropped } => {
            let (after, tick) = w.at_second(now_ns);
            (
                after,
                match tick {
                    Tick::Quiet => RtdsActionView::Wait,
                    Tick::Report => RtdsActionView::Report { msgs: after.msgs, dropped },
                    Tick::Stale(secs) => RtdsActionView::End(stale_reason(secs)),
                },
            )
        },
    }
}

/// Every value that a frame brings is mirrored, whatever its symbol: the feed
/// cannot be asked for it again. A value of a target symbol is written too.
pub proof fn law_every_value_is_mirrored(
    w: Watch,
    raw: &str,
    recv_ms: i64,
    now_ns: u128,
    targets: Seq<Seq<char>>,
)
    requires
        !is_idle_frame(raw@),
        frame_update(raw@, recv_ms) is Some,
    ensures
        ({
            let record = frame_update(raw@, recv_ms).unwrap();
            let action = next(
                w,
                Event::Text { raw, recv_ms, now_ns },
                |raw: Seq<char>, recv_ms: i64| frame_update(raw, recv_ms),
                targets,
            ).1;
            &&& action matches RtdsActionView::Store { record: stored, row }
            &&& stored == record
            &&& row is Some <==> targets.contains(lowercase(record.symbol))
            &&& row is Some ==> row == twap_row(record)
        }),
{
    law_update_has_a_row(json_text(raw@).unwrap(), recv_ms);
}

/// A text frame ends the silence. One that answers a ping or is blank does
/// nothing else; any other is counted, and if it brings no value, nothing else
/// follows.
pub proof fn law_text_ends_the_silence(
    w: Watch,
    raw: &str,
    recv_ms: i64,
    now_ns: u128,
    update: spec_fn(Seq<char>, i64) -> Option<TwapView>,
    targets: Seq<Seq<char>>,
)
    requires
        w.msgs < u64::MAX,
    ensures
        ({
            let (after, action) = next(w, Event::Text { raw, recv_ms, now_ns }, update, targets);
            let idle = raw@ == "PONG"@ || trimmed(raw@).len() == 0;
            &&& after.last_ns == now_ns
            &&& after.secs == w.secs
            &&& after.stale_s == w.stale_s
            &&& after.msgs == w.msgs + if idle {
                0int
            } else {
                1
            }
            &&& idle || update(raw@, recv_ms) is None ==> action is Wait
        }),
{
}

/// What else the session does: it ends, with the reason, when the stream does,
/// when the other side closes or when a ping fails; it sends `PING` when it is
/// time; what shows only that the other side is there ends the silence. None of
/// this changes the count of the frames.
pub proof fn law_session_by_event(
    w: Watch,
    e: Event<'_>,
    update: spec_fn(Seq<char>, i64) -> Option<TwapView>,
    targets: Seq<Seq<char>>,
)
    requires
        e !is Text,
        e !is Second,
    ensures
        ({
            let (after, action) = next(w, e, update, targets);
            &&& after.msgs == w.msgs && after.secs == w.secs && after.stale_s == w.stale_s
            &&& match e {
                Event::Alive { now_ns } => after.last_ns == now_ns,
                _ => after.last_ns == w.last_ns,
            }
            &&& match e {
                Event::StreamClosed => action == RtdsActionView::End("stream closed"@),
                Event::CloseFrame { detail } => action == RtdsActionView::End(
                    "close frame: "@ + detail@,
                ),
                Event::PingFailed { error } => action == RtdsActionView::End(
                    "ping failed: "@ + error@,
                ),
                Event::PingDue => action == RtdsActionView::Ping("PING"@),
                _ => action is Wait,
            }
        }),
{
}

/// A second ends the session exactly if no frame came for longer than the watch
/// allows, and says for how many seconds; every sixtieth second brings a report
/// of the frames that came and the records that were dropped.
pub proof fn law_session_by_second(
    w: Watch,
    now_ns: u128,
    dropped: u64,
    update: spec_fn(Seq<char>, i64) -> Option<TwapView>,
    targets: Seq<Seq<char>>,
)
    requires
        w.secs < u64::MAX,
    ensures
        ({
            let (after, action) = next(w, Event::Second { now_ns, dropped }, update, targets);
            let silence = now_ns - w.last_ns;
            &&& after.msgs == w.msgs && after.last_ns == w.last_ns && after.stale_s == w.stale_s
            &&& if silence > w.stale_s * 1_000_000_000 {
                after.secs == w.secs && action == RtdsActionView::End(
                    "stale: no frame for "@ + int_text(silence / 1_000_000_000) + "s"@,
                )
            } else {
                after.secs == w.secs + 1 && if after.secs % 60 == 0 {
                    action == RtdsActionView::Report { msgs: w.msgs, dropped }
                } else {
                    action is Wait
                }
            }
        }),
{
}

/// Takes in the value of a frame, and says what to do with it.
pub fn store(update: Option<TwapRecord>, cfg: &Config) -> (r: RtdsAction)
    ensures
        r@ == stored(view_of(update), words(cfg.target_symbols@)),
{
    match update {
        Some(record) => {
            let row: Option<TwapRow> = if cfg.is_target(record.symbol.as_str()) {
                match TwapRow::try_from(&record) {
                    Ok(row) => Some(row),
                    Err(_) => None,
                }
            } else {
                None
            };
            RtdsAction::Store { record, row }
        },
        None => RtdsAction::Wait,
    }
}

/// Takes in an event of the session that `watch` watches, and says what to do
/// about it.
pub fn handle(watch: &mut Watch, e: Event<'_>, cfg: &Config) -> (r: RtdsAction)
    requires
        old(watch).msgs < u64::MAX,
        old(watch).secs < u64::MAX,
    ensures
        (*final(watch), r@) == next(
            *old(watch),
            e,
            |raw: Seq<char>, recv_ms: i64| frame_update(raw, recv_ms),
            words(cfg.target_symbols@),
        ),
{
    match e {
        Event::Proceed => RtdsAction::Wait,
        Event::Fetched { .. } => RtdsAction::Wait,
        Event::StreamClosed => RtdsAction::End("stream closed".to_owned()),
        Event::Text { raw, recv_ms, now_ns } => {
            watch.touch(now_ns);
            if same(raw, "PONG") || is_empty(trim(raw)) {
                return RtdsAction::Wait;
            }
            watch.count();
            store(parse_frame(raw, recv_ms), cfg)
        },
        Event::Alive { now_ns } => {
            watch.touch(now_ns);
            RtdsAction::Wait
        },
        Event::CloseFrame { detail } => RtdsAction::End(with_detail("close frame: ", detail)),
        Event::Fragment => RtdsAction::Wait,
        Event::PingDue => RtdsAction::Ping("PING".to_owned()),
        Event::PingFailed { error } => RtdsAction::End(with_detail("ping failed: ", error)),
        Event::ReplayDue { .. } => RtdsAction::Wait,
        Event::Second { now_ns, dropped } => match watch.second(now_ns) {
            Tick::Quiet => RtdsAction::Wait,
            Tick::Report => RtdsAction::Report { msgs: watch.msgs, dropped },
            Tick::Stale(secs) => RtdsAction::End(stale_text(secs)),
        },
    }
}

} // verus!
