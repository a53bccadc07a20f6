//! The exchanges: what each of them is asked for and how its frames are read.

use vstd::prelude::*;

use crate::seqs::view_of;
use crate::types::{BboRecord, BboView, BookRecord, BookView, Exchange, TradeRecord, TradeView};

pub mod binance;
pub mod bybit;
pub mod coinbase;
pub mod fields;
pub mod kraken;
pub mod okx;
pub mod util;

verus! {

/// A record that was read from a frame.
#[derive(Debug)]
pub enum ParsedRecord {
    Bbo(BboRecord),
    Trade(TradeRecord),
    Book(BookRecord),
}

/// What a [`ParsedRecord`] holds.
pub enum RecordView {
    Bbo(BboView),
    Trade(TradeView),
    Book(BookView),
}

impl View for ParsedRecord {
    type V = RecordView;

    open spec fn view(&self) -> RecordView {
        match self {
            ParsedRecord::Bbo(r) => RecordView::Bbo(r@),
            ParsedRecord::Trade(r) => RecordView::Trade(r@),
            ParsedRecord::Book(r) => RecordView::Book(r@),
        }
    }
}

/// The view of a [`ParsedRecord`] shows which kind of record it is.
pub proof fn law_view_of_parsed_record(p: ParsedRecord)
    ensures
        match p {
            ParsedRecord::Bbo(r) => p@ == RecordView::Bbo(r@),
            ParsedRecord::Trade(r) => p@ == RecordView::Trade(r@),
            ParsedRecord::Book(r) => p@ == RecordView::Book(r@),
        },
{
}

impl RecordView {
    /// When the record was received.
    pub open spec fn recv_ms(self) -> i64 {
        match self {
            RecordView::Bbo(r) => r.recv_ms,
            RecordView::Trade(r) => r.recv_ms,
            RecordView::Book(r) => r.recv_ms,
        }
    }

    /// The symbol that the record is about.
    pub open spec fn symbol(self) -> Seq<char> {
        match self {
            RecordView::Bbo(r) => r.symbol,
            RecordView::Trade(r) => r.symbol,
            RecordView::Book(r) => r.symbol,
        }
    }

    /// The exchange that the record comes from.
    pub open spec fn exchange(self) -> Exchange {
        match self {
            RecordView::Bbo(r) => r.exchange,
            RecordView::Trade(r) => r.exchange,
            RecordView::Book(r) => r.exchange,
        }
    }
}

/// What records hold.
pub open spec fn records(v: Seq<ParsedRecord>) -> Seq<RecordView> {
    v.map_values(|r: ParsedRecord| r@)
}

/// What texts hold.
pub open spec fn texts(v: Seq<String>) -> Seq<Seq<char>> {
    v.map_values(|s: String| s@)
}

/// The records are all of `exchange` and were all received at `recv_ms`.
pub open spec fn stamped(v: Seq<RecordView>, exchange: Exchange, recv_ms: i64) -> bool {
    forall|i: int|
        0 <= i < v.len() ==> (#[trigger] v[i]).exchange() == exchange && v[i].recv_ms() == recv_ms
}

/// An exchange as the session sees it: where to connect, what to send and how
/// to read what comes.
pub trait ExchangeSpec: Send + Sync {
    /// The exchange.
    spec fn exchange(&self) -> Exchange;

    /// Where to connect.
    spec fn url(&self) -> Seq<char>;

    /// What is sent after connecting.
    spec fn requests(&self) -> Seq<Seq<char>>;

    /// The text that is sent as a ping; `None` where the ping of the protocol is
    /// sent.
    spec fn ping(&self) -> Option<Seq<char>>;

    /// The records that a frame holds.
    spec fn frame(&self, raw: Seq<char>, recv_ms: i64) -> Seq<RecordView>;

    /// The name of the exchange.
    fn name(&self) -> (r: &'static str)
        ensures
            r@ == self.exchange().name(),
    ;

    /// The address of the WebSocket.
    fn ws_url(&self) -> (r: &str)
        ensures
            r@ == self.url(),
    ;

    /// The frames that subscribe, sent after connecting.
    fn subscribe_msgs(&self) -> (r: Vec<String>)
        ensures
            texts(r@) == self.requests(),
    ;

    /// Reads the records of a text frame that was received at `recv_ms`.
    fn parse(&self, raw: &str, recv_ms: i64) -> (r: Vec<ParsedRecord>)
        ensures
            records(r@) == self.frame(raw@, recv_ms),
            stamped(records(r@), self.exchange(), recv_ms),
    ;

    /// The text to send as a ping; `None` where the ping of the protocol is
    /// enough.
    fn ping_msg(&self) -> (r: Option<String>)
        ensures
            view_of(r) == self.ping(),
    ;

    /// The largest frame that is accepted, in bytes.
    fn max_frame_size(&self) -> (r: usize)
        default_ensures
            r == 0x20_0000,
    {
        0x20_0000
    }
}

} // verus!
