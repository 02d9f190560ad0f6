//! The messages exchanged with the upstream feed, decoded: prices and
//! quantities are already in fixed-point units.

use crate::snapshot::PqPair;
use vstd::prelude::*;

verus! {

/// A top-of-book tick: the best bid and the best ask, with the identifier
/// of the update that set them.
#[derive(Clone, Debug)]
pub struct BookTicker {
    pub update_id: u64,
    pub symbol: String,
    pub best_bid_price: u64,
    pub best_bid_quantity: u64,
    pub best_ask_price: u64,
    pub best_ask_quantity: u64,
}

/// A depth delta: new sizes for some bid and ask prices, covering the
/// updates from `first_update_id` to `last_update_id`.
#[derive(Clone, Debug)]
pub struct Depth {
    pub event_time: u64,
    pub symbol: String,
    pub first_update_id: u64,
    pub last_update_id: u64,
    pub bids: Vec<PqPair>,
    pub asks: Vec<PqPair>,
}

/// A trade print.
#[derive(Clone, Debug)]
pub struct Trade {
    pub event_time: u64,
    pub symbol: String,
    pub trade_id: u64,
    pub price: u64,
    pub quantity: u64,
    pub bid_id: u64,
    pub ask_id: u64,
    pub trade_time: u64,
    pub market_maker: bool,
}

/// The payload of a data frame: one of the three known shapes.
#[derive(Clone, Debug)]
pub enum WsStreamMesssageData {
    BookTicker(BookTicker),
    Depth(Depth),
    Trade(Trade),
}

/// A data frame: the name of the sub-stream that sent it, and its payload.
#[derive(Clone, Debug)]
pub struct WsStreamMessage {
    pub stream: String,
    pub data: WsStreamMesssageData,
}

/// What a request asks of the feed.
#[derive(Clone, Copy, Debug, PartialEq, Eq, Structural)]
pub enum WsMessageMethod {
    Subscribe,
    Unsubscribe,
}

/// A request to the feed: the method, the sub-streams it names, and the
/// identifier under which the feed answers it.
#[derive(Clone, Debug)]
pub struct WsMessage {
    pub method: WsMessageMethod,
    pub params: Vec<String>,
    pub id: u64,
}

/// A `WsMessage` as plain values.
pub struct WsMessageView {
    pub method: WsMessageMethod,
    pub params: Seq<Seq<char>>,
    pub id: u64,
}

impl View for WsMessage {
    type V = WsMessageView;

    open spec fn view(&self) -> WsMessageView {
        WsMessageView {
            method: self.method,
            params: Seq::new(self.params@.len(), |i: int| self.params@[i]@),
            id: self.id,
        }
    }
}

} // verus!
