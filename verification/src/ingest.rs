//! The decisions of the ingestion loop: which request opens a session, how
//! a decoded frame changes the engine's state, and what the session does
//! next after each thing the network hands back.

use crate::book::{
    lemma_streams_apart, stream_sides, with_level, with_trade, BookState, BookView,
};
use crate::sides::{
    apply_level, lemma_uncross_clears, lemma_uncrossed_kept, uncrossed, LevelUpdate,
};
use crate::snapshot::PqPair;
use crate::trades::TradeRecord;
use crate::wire::{
    WsMessage, WsMessageMethod, WsMessageView, WsStreamMesssageData, WsStreamMessage,
};
use rand::Rng;
use vstd::prelude::*;

verus! {

/// The update that a top-of-book tick makes on one side.
pub open spec fn tick_update(is_bid: bool, price: u64, quantity: u64, update_id: u64) -> LevelUpdate {
    LevelUpdate {
        is_bid,
        price,
        quantity,
        min_update_id: update_id,
        max_update_id: update_id,
        uncross: true,
    }
}

/// The update that one entry of a depth delta makes.
pub open spec fn delta_update(is_bid: bool, entry: PqPair, first_id: u64, last_id: u64) -> LevelUpdate {
    LevelUpdate {
        is_bid,
        price: entry.0,
        quantity: entry.1,
        min_update_id: first_id,
        max_update_id: last_id,
        uncross: false,
    }
}

/// The state after each of `entries` of a depth delta was applied in turn.
pub open spec fn with_entries(
    book: BookView,
    name: Seq<char>,
    is_bid: bool,
    entries: Seq<PqPair>,
    first_id: u64,
    last_id: u64,
) -> BookView
    decreases entries.len(),
{
    if entries.len() == 0 {
        book
    } else {
        with_level(
            with_entries(book, name, is_bid, entries.drop_last(), first_id, last_id),
            name,
            delta_update(is_bid, entries.last(), first_id, last_id),
        )
    }
}

/// The state after one data frame.
///
/// A top-of-book tick updates the bid, then the ask, each uncrossing and
/// with the tick's identifier as both ends of the range. A depth delta
/// updates each of its bids, then each of its asks, none uncrossing, all
/// with the delta's range. A trade print is offered to the sampler.
pub open spec fn with_message(book: BookView, message: WsStreamMessage) -> BookView {
    let name = message.stream@;
    match message.data {
        WsStreamMesssageData::BookTicker(tick) => with_level(
            with_level(
                book,
                name,
                tick_update(true, tick.best_bid_price, tick.best_bid_quantity, tick.update_id),
            ),
            name,
            tick_update(false, tick.best_ask_price, tick.best_ask_quantity, tick.update_id),
        ),
        WsStreamMesssageData::Depth(delta) => with_entries(
            with_entries(
                book,
                name,
                true,
                delta.bids@,
                delta.first_update_id,
                delta.last_update_id,
            ),
            name,
            false,
            delta.asks@,
            delta.first_update_id,
            delta.last_update_id,
        ),
        WsStreamMesssageData::Trade(print) => with_trade(
            book,
            TradeRecord {
                timestamp: print.trade_time,
                price: print.price,
                quantity: print.quantity,
            },
        ),
    }
}

/// A top-of-book tick that carries a bid or an ask of non-zero size leaves
/// the consolidated book uncrossed, whatever it held before, and the book
/// of the tick's own stream too.
pub proof fn lemma_tick_uncrosses(book: BookView, message: WsStreamMessage)
    requires
        message.data matches WsStreamMesssageData::BookTicker(tick) && (tick.best_bid_quantity
            != 0 || tick.best_ask_quantity != 0),
    ensures
        uncrossed(with_message(book, message).consolidated),
        uncrossed(stream_sides(with_message(book, message).streams, message.stream@)),
{
    let name = message.stream@;
    let tick = message.data->BookTicker_0;
    let bid = tick_update(true, tick.best_bid_price, tick.best_bid_quantity, tick.update_id);
    let ask = tick_update(false, tick.best_ask_price, tick.best_ask_quantity, tick.update_id);
    let between = with_level(book, name, bid);
    lemma_streams_apart(book.streams, name, bid, name);
    lemma_streams_apart(between.streams, name, ask, name);
    let stream_before = stream_sides(book.streams, name);
    if tick.best_bid_quantity != 0 {
        lemma_uncross_clears(book.consolidated, bid);
        lemma_uncross_clears(stream_before, bid);
        lemma_uncrossed_kept(between.consolidated, ask);
        lemma_uncrossed_kept(apply_level(stream_before, bid), ask);
    } else {
        lemma_uncross_clears(between.consolidated, ask);
        lemma_uncross_clears(apply_level(stream_before, bid), ask);
    }
}

/// Applies each entry of one side of a depth delta.
fn apply_entries(
    book: &mut BookState,
    name: &String,
    is_bid: bool,
    entries: &Vec<PqPair>,
    first_id: u64,
    last_id: u64,
)
    ensures
        final(book)@ == with_entries(old(book)@, name@, is_bid, entries@, first_id, last_id),
        old(book).wf() ==> final(book).wf(),
{
    let mut i: usize = 0;
    while i < entries.len()
        invariant
            i <= entries.len(),
            book@ == with_entries(
                old(book)@,
                name@,
                is_bid,
                entries@.take(i as int),
                first_id,
                last_id,
            ),
            old(book).wf() ==> book.wf(),
        decreases entries.len() - i,
    {
        proof {
            assert(entries@.take(i + 1).drop_last() =~= entries@.take(i as int));
        }
        let entry = entries[i];
        book.insert_price_level(name.clone(), is_bid, entry.0, entry.1, first_id, last_id, false);
        i += 1;
    }
    proof {
        assert(entries@.take(i as int) =~= entries@);
    }
}

/// Folds one decoded data frame into the engine's state.
pub fn apply_message(book: &mut BookState, message: &WsStreamMessage)
    ensures
        final(book)@ == with_message(old(book)@, *message),
        old(book).wf() ==> final(book).wf(),
{
    match &message.data {
        WsStreamMesssageData::BookTicker(tick) => {
            book.insert_price_level(
                message.stream.clone(),
                true,
                tick.best_bid_price,
                tick.best_bid_quantity,
                tick.update_id,
                tick.update_id,
                true,
            );
            book.insert_price_level(
                message.stream.clone(),
                false,
                tick.best_ask_price,
                tick.best_ask_quantity,
                tick.update_id,
                tick.update_id,
                true,
            );
        },
        WsStreamMesssageData::Depth(delta) => {
            apply_entries(
                book,
                &message.stream,
                true,
                &delta.bids,
                delta.first_update_id,
                delta.last_update_id,
            );
            apply_entries(
                book,
                &message.stream,
                false,
                &delta.asks,
                delta.first_update_id,
                delta.last_update_id,
            );
        },
        WsStreamMesssageData::Trade(print) => {
            book.insert_trade(print.trade_time, print.price, print.quantity);
        },
    }
}

/// The request that subscribes to the three sub-streams of the symbol:
/// top of book, depth and trade prints, under the identifier `id`.
pub open spec fn subscription(id: u64) -> WsMessageView {
    WsMessageView {
        method: WsMessageMethod::Subscribe,
        params: seq!["btcusdt@bookTicker"@, "btcusdt@depth"@, "btcusdt@trade"@],
        id,
    }
}

/// Builds the subscription request with the identifier `id`.
pub fn subscription_request(id: u64) -> (request: WsMessage)
    ensures
        request@ == subscription(id),
{
    let mut params: Vec<String> = Vec::new();
    params.push("btcusdt@bookTicker".to_string());
    params.push("btcusdt@depth".to_string());
    params.push("btcusdt@trade".to_string());
    let request = WsMessage { method: WsMessageMethod::Subscribe, params, id };
    proof {
        assert(request@.params =~= subscription(id).params);
    }
    request
}

/// Draws a request identifier: `rand::thread_rng()`, then `Rng::gen` for a
/// `u64`. Nothing is claimed of the number drawn. `thread_rng` panics where
/// the system's random source cannot seed the generator.
#[verifier::external_body]
fn random_request_id() -> (id: u64) {
    rand::thread_rng().gen::<u64>()
}

/// Builds the subscription request of a new session, under a randomly
/// drawn identifier.
pub fn new_subscription() -> (request: WsMessage)
    ensures
        request@ == subscription(request.id),
{
    subscription_request(random_request_id())
}

/// Where a session stands.
#[derive(Clone, Copy, Debug, PartialEq, Eq, Structural)]
pub enum SessionState {
    /// The network session is being opened.
    Connecting,
    /// The session is open and the subscription request is being sent.
    Subscribed,
    /// Frames are being received.
    Streaming,
    /// The session failed and is being torn down.
    Faulted,
}

/// What the network handed back after the last action.
#[derive(Clone, Copy, Debug, PartialEq, Eq, Structural)]
pub enum SessionEvent {
    /// The session was opened.
    Connected,
    /// The frame that was to be sent has been sent.
    Sent,
    /// A data frame came in and was decoded as one of the known shapes.
    Data,
    /// A data frame came in that matches none of the known shapes.
    Unrecognized,
    /// A ping came in.
    Ping,
    /// A pong came in.
    Pong,
    /// A frame of any other kind came in.
    Other,
    /// Opening, sending or receiving failed.
    Fault,
    /// The failed session has been torn down.
    TornDown,
}

/// What the loop does next.
#[derive(Clone, Copy, Debug, PartialEq, Eq, Structural)]
pub enum SessionAction {
    /// Open the network session.
    Connect,
    /// Send the subscription request.
    Subscribe,
    /// Receive the next frame.
    Receive,
    /// Fold the frame that came in into the engine's state, then receive
    /// the next.
    Apply,
    /// Drop the frame that came in with a diagnostic, then receive the
    /// next.
    Drop,
    /// Answer a ping with a pong.
    ReplyPong,
    /// Tear the session down.
    Teardown,
}

/// The state and the action that follow `event` in `state`.
///
/// Once connected and subscribed, the session streams: a data frame of a
/// known shape is applied, any other frame but a ping is dropped or passed
/// over, a ping is answered. A fault in any state, and an event that the
/// state has not asked for, ends the session. A session that has ended is
/// opened anew, whatever comes: there is no state in which the loop rests.
pub open spec fn next(state: SessionState, event: SessionEvent) -> (SessionState, SessionAction) {
    match (state, event) {
        (SessionState::Faulted, _) => (SessionState::Connecting, SessionAction::Connect),
        (SessionState::Connecting, SessionEvent::Connected) => (
            SessionState::Subscribed,
            SessionAction::Subscribe,
        ),
        (SessionState::Subscribed, SessionEvent::Sent) => (
            SessionState::Streaming,
            SessionAction::Receive,
        ),
        (SessionState::Streaming, SessionEvent::Sent) => (
            SessionState::Streaming,
            SessionAction::Receive,
        ),
        (SessionState::Streaming, SessionEvent::Data) => (
            SessionState::Streaming,
            SessionAction::Apply,
        ),
        (SessionState::Streaming, SessionEvent::Pong) => (
            SessionState::Streaming,
            SessionAction::Receive,
        ),
        (SessionState::Streaming, SessionEvent::Unrecognized) => (
            SessionState::Streaming,
            SessionAction::Drop,
        ),
        (SessionState::Streaming, SessionEvent::Other) => (
            SessionState::Streaming,
            SessionAction::Drop,
        ),
        (SessionState::Streaming, SessionEvent::Ping) => (
            SessionState::Streaming,
            SessionAction::ReplyPong,
        ),
        _ => (SessionState::Faulted, SessionAction::Teardown),
    }
}

/// The loop never rests: a fault ends the session wherever it stands, a
/// session that has ended is opened anew whatever comes, and a session
/// that streams goes on streaming after every frame.
pub proof fn lemma_session_never_rests(state: SessionState, event: SessionEvent)
    ensures
        state != SessionState::Faulted ==> next(state, SessionEvent::Fault) == (
            SessionState::Faulted,
            SessionAction::Teardown,
        ),
        next(SessionState::Faulted, event) == (SessionState::Connecting, SessionAction::Connect),
        next(state, event).0 == SessionState::Streaming ==> state == SessionState::Subscribed
            || state == SessionState::Streaming,
        state == SessionState::Streaming && (event == SessionEvent::Data || event
            == SessionEvent::Unrecognized || event == SessionEvent::Ping || event
            == SessionEvent::Pong || event == SessionEvent::Other || event == SessionEvent::Sent)
            ==> next(state, event).0 == SessionState::Streaming,
{
}

/// The state and the action with which the loop starts.
pub fn start() -> (first: (SessionState, SessionAction))
    ensures
        first == (SessionState::Connecting, SessionAction::Connect),
{
    (SessionState::Connecting, SessionAction::Connect)
}

/// Decides what follows `event` in `state`.
pub fn step(state: SessionState, event: SessionEvent) -> (then: (SessionState, SessionAction))
    ensures
        then == next(state, event),
{
    match (state, event) {
        (SessionState::Faulted, _) => (SessionState::Connecting, SessionAction::Connect),
        (SessionState::Connecting, SessionEvent::Connected) => (
            SessionState::Subscribed,
            SessionAction::Subscribe,
        ),
        (SessionState::Subscribed, SessionEvent::Sent) => (
            SessionState::Streaming,
            SessionAction::Receive,
        ),
        (SessionState::Streaming, SessionEvent::Sent)
        | (SessionState::Streaming, SessionEvent::Pong) => (
            SessionState::Streaming,
            SessionAction::Receive,
        ),
        (SessionState::Streaming, SessionEvent::Data) => (
            SessionState::Streaming,
            SessionAction::Apply,
        ),
        (SessionState::Streaming, SessionEvent::Unrecognized)
        | (SessionState::Streaming, SessionEvent::Other) => (
            SessionState::Streaming,
            SessionAction::Drop,
        ),
        (SessionState::Streaming, SessionEvent::Ping) => (
            SessionState::Streaming,
            SessionAction::ReplyPong,
        ),
        _ => (SessionState::Faulted, SessionAction::Teardown),
    }
}

} // verus!
