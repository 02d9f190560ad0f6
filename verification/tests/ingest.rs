use orderbook::book::BookState;
use orderbook::ingest::{
    apply_message, new_subscription, start, step, subscription_request, SessionAction,
    SessionEvent, SessionState,
};
use orderbook::ladder::PriceLevel;
use orderbook::snapshot::PqPair;
use orderbook::trades::TradeRecord;
use orderbook::wire::{
    BookTicker, Depth, Trade, WsMessageMethod, WsStreamMesssageData, WsStreamMessage,
};

const ONE: u64 = 100_000_000;

fn tick(update_id: u64, bid: (u64, u64), ask: (u64, u64)) -> WsStreamMessage {
    WsStreamMessage {
        stream: "btcusdt@bookTicker".to_string(),
        data: WsStreamMesssageData::BookTicker(BookTicker {
            update_id,
            symbol: "BTCUSDT".to_string(),
            best_bid_price: bid.0,
            best_bid_quantity: bid.1,
            best_ask_price: ask.0,
            best_ask_quantity: ask.1,
        }),
    }
}

fn delta(first: u64, last: u64, bids: Vec<PqPair>, asks: Vec<PqPair>) -> WsStreamMessage {
    WsStreamMessage {
        stream: "btcusdt@depth".to_string(),
        data: WsStreamMesssageData::Depth(Depth {
            event_time: 1,
            symbol: "BTCUSDT".to_string(),
            first_update_id: first,
            last_update_id: last,
            bids,
            asks,
        }),
    }
}

fn trade(trade_time: u64, price: u64, quantity: u64) -> WsStreamMessage {
    WsStreamMessage {
        stream: "btcusdt@trade".to_string(),
        data: WsStreamMesssageData::Trade(Trade {
            event_time: trade_time + 1,
            symbol: "BTCUSDT".to_string(),
            trade_id: 7,
            price,
            quantity,
            bid_id: 1,
            ask_id: 2,
            trade_time,
            market_maker: false,
        }),
    }
}

fn level(quantity: u64, min_update_id: u64, max_update_id: u64) -> PriceLevel {
    PriceLevel { quantity, min_update_id, max_update_id }
}

#[test]
fn tick_then_delta_then_tick() {
    let mut book = BookState::new();
    apply_message(&mut book, &tick(5, (100 * ONE, ONE), (101 * ONE, ONE)));
    apply_message(&mut book, &delta(6, 6, vec![PqPair(99 * ONE, 2 * ONE)], vec![]));
    apply_message(&mut book, &tick(7, (100 * ONE + ONE / 2, ONE), (101 * ONE, ONE)));

    let consolidated = book.consolidated();
    assert_eq!(
        consolidated.asks.entries(),
        vec![(101 * ONE, level(ONE, 7, 7))]
    );
    assert_eq!(
        consolidated.bids.entries(),
        vec![
            (99 * ONE, level(2 * ONE, 6, 6)),
            (100 * ONE, level(ONE, 5, 5)),
            (100 * ONE + ONE / 2, level(ONE, 7, 7)),
        ]
    );
    let best = book.clone_to_output(1);
    assert_eq!(best.bids.len(), 1);
    assert_eq!((best.bids[0].p, best.bids[0].q), (100 * ONE + ONE / 2, ONE));
    assert_eq!((best.asks[0].p, best.asks[0].q), (101 * ONE, ONE));

    let depth = book.stream(&"btcusdt@depth".to_string()).unwrap();
    assert_eq!(depth.bids.entries(), vec![(99 * ONE, level(2 * ONE, 6, 6))]);
    assert_eq!(depth.asks.len(), 0);
    let ticker = book.stream(&"btcusdt@bookTicker".to_string()).unwrap();
    assert_eq!(
        ticker.bids.entries(),
        vec![(100 * ONE, level(ONE, 5, 5)), (100 * ONE + ONE / 2, level(ONE, 7, 7))]
    );
    assert_eq!(ticker.asks.entries(), vec![(101 * ONE, level(ONE, 7, 7))]);
}

#[test]
fn tick_uncrosses_with_its_own_id_range() {
    let mut book = BookState::new();
    apply_message(&mut book, &tick(5, (100 * ONE, ONE), (101 * ONE, ONE)));
    apply_message(&mut book, &tick(9, (102 * ONE, 3 * ONE), (103 * ONE, 4 * ONE)));
    let consolidated = book.consolidated();
    assert_eq!(
        consolidated.bids.entries(),
        vec![(100 * ONE, level(ONE, 5, 5)), (102 * ONE, level(3 * ONE, 9, 9))]
    );
    assert_eq!(consolidated.asks.entries(), vec![(103 * ONE, level(4 * ONE, 9, 9))]);
}

#[test]
fn tick_ask_at_the_bid_clears_the_bid() {
    let mut book = BookState::new();
    apply_message(&mut book, &tick(1, (100 * ONE, ONE), (100 * ONE, ONE)));
    let consolidated = book.consolidated();
    assert_eq!(consolidated.bids.len(), 0);
    assert_eq!(consolidated.asks.entries(), vec![(100 * ONE, level(ONE, 1, 1))]);
}

#[test]
fn delta_applies_bids_then_asks_without_uncrossing() {
    let mut book = BookState::new();
    apply_message(
        &mut book,
        &delta(
            10,
            12,
            vec![PqPair(100, 1), PqPair(99, 2), PqPair(100, 3)],
            vec![PqPair(98, 4), PqPair(101, 0)],
        ),
    );
    let depth = book.stream(&"btcusdt@depth".to_string()).unwrap();
    assert_eq!(depth.bids.entries(), vec![(99, level(2, 10, 12)), (100, level(3, 10, 12))]);
    assert_eq!(depth.asks.entries(), vec![(98, level(4, 10, 12))]);
    assert_eq!(book.consolidated().bids.entries(), depth.bids.entries());
    assert_eq!(book.consolidated().asks.entries(), depth.asks.entries());
}

#[test]
fn delta_with_zero_quantity_removes_the_level() {
    let mut book = BookState::new();
    apply_message(&mut book, &delta(1, 1, vec![PqPair(100, 1), PqPair(99, 2)], vec![]));
    apply_message(&mut book, &delta(2, 2, vec![PqPair(100, 0)], vec![]));
    let depth = book.stream(&"btcusdt@depth".to_string()).unwrap();
    assert_eq!(depth.bids.entries(), vec![(99, level(2, 1, 1))]);
}

#[test]
fn empty_delta_still_changes_nothing() {
    let mut book = BookState::new();
    apply_message(&mut book, &delta(1, 1, vec![], vec![]));
    assert!(book.stream(&"btcusdt@depth".to_string()).is_none());
    assert_eq!(book.consolidated().bids.len(), 0);
}

#[test]
fn trade_prints_go_to_the_sampler() {
    let mut book = BookState::new();
    apply_message(&mut book, &trade(0, 100 * ONE, ONE));
    apply_message(&mut book, &trade(100, 100 * ONE, 2 * ONE));
    apply_message(&mut book, &trade(600, 100 * ONE, 3 * ONE));
    assert_eq!(
        book.drain_trades(),
        vec![
            TradeRecord { timestamp: 0, price: 100 * ONE, quantity: ONE },
            TradeRecord { timestamp: 600, price: 100 * ONE, quantity: 3 * ONE },
        ]
    );
    assert!(book.stream(&"btcusdt@trade".to_string()).is_none());
}

#[test]
fn subscription_names_the_three_streams() {
    let request = subscription_request(42);
    assert_eq!(request.method, WsMessageMethod::Subscribe);
    assert_eq!(request.params, vec!["btcusdt@bookTicker", "btcusdt@depth", "btcusdt@trade"]);
    assert_eq!(request.id, 42);
}

#[test]
fn new_subscription_differs_only_in_its_id() {
    let first = new_subscription();
    let second = new_subscription();
    assert_eq!(first.method, WsMessageMethod::Subscribe);
    assert_eq!(first.params, subscription_request(0).params);
    assert_eq!(second.params, first.params);
    let ids: Vec<u64> = (0..8).map(|_| new_subscription().id).collect();
    assert!(ids.iter().any(|id| *id != ids[0]));
}

#[test]
fn session_runs_from_connecting_to_streaming() {
    assert_eq!(start(), (SessionState::Connecting, SessionAction::Connect));
    assert_eq!(
        step(SessionState::Connecting, SessionEvent::Connected),
        (SessionState::Subscribed, SessionAction::Subscribe)
    );
    assert_eq!(
        step(SessionState::Subscribed, SessionEvent::Sent),
        (SessionState::Streaming, SessionAction::Receive)
    );
}

#[test]
fn streaming_goes_on_after_every_frame() {
    let receive = (SessionState::Streaming, SessionAction::Receive);
    assert_eq!(
        step(SessionState::Streaming, SessionEvent::Data),
        (SessionState::Streaming, SessionAction::Apply)
    );
    assert_eq!(step(SessionState::Streaming, SessionEvent::Pong), receive);
    assert_eq!(step(SessionState::Streaming, SessionEvent::Sent), receive);
    assert_eq!(
        step(SessionState::Streaming, SessionEvent::Ping),
        (SessionState::Streaming, SessionAction::ReplyPong)
    );
    let dropped = (SessionState::Streaming, SessionAction::Drop);
    assert_eq!(step(SessionState::Streaming, SessionEvent::Unrecognized), dropped);
    assert_eq!(step(SessionState::Streaming, SessionEvent::Other), dropped);
}

#[test]
fn fault_ends_the_session_in_every_state() {
    let states = [SessionState::Connecting, SessionState::Subscribed, SessionState::Streaming];
    for state in states {
        assert_eq!(
            step(state, SessionEvent::Fault),
            (SessionState::Faulted, SessionAction::Teardown)
        );
    }
}

#[test]
fn faulted_session_always_reconnects() {
    let events = [
        SessionEvent::Connected,
        SessionEvent::Sent,
        SessionEvent::Data,
        SessionEvent::Unrecognized,
        SessionEvent::Ping,
        SessionEvent::Pong,
        SessionEvent::Other,
        SessionEvent::Fault,
        SessionEvent::TornDown,
    ];
    for event in events {
        assert_eq!(
            step(SessionState::Faulted, event),
            (SessionState::Connecting, SessionAction::Connect)
        );
    }
}

#[test]
fn event_out_of_turn_ends_the_session() {
    let teardown = (SessionState::Faulted, SessionAction::Teardown);
    assert_eq!(step(SessionState::Connecting, SessionEvent::Data), teardown);
    assert_eq!(step(SessionState::Connecting, SessionEvent::Sent), teardown);
    assert_eq!(step(SessionState::Subscribed, SessionEvent::Connected), teardown);
    assert_eq!(step(SessionState::Subscribed, SessionEvent::Ping), teardown);
    assert_eq!(step(SessionState::Streaming, SessionEvent::Connected), teardown);
    assert_eq!(step(SessionState::Streaming, SessionEvent::TornDown), teardown);
}

#[test]
fn session_survives_a_fault_and_streams_again() {
    let (mut state, mut action) = start();
    let script = [
        (SessionEvent::Connected, SessionAction::Subscribe),
        (SessionEvent::Sent, SessionAction::Receive),
        (SessionEvent::Data, SessionAction::Apply),
        (SessionEvent::Fault, SessionAction::Teardown),
        (SessionEvent::TornDown, SessionAction::Connect),
        (SessionEvent::Fault, SessionAction::Teardown),
        (SessionEvent::TornDown, SessionAction::Connect),
        (SessionEvent::Connected, SessionAction::Subscribe),
        (SessionEvent::Sent, SessionAction::Receive),
    ];
    assert_eq!(action, SessionAction::Connect);
    for (event, expected) in script {
        (state, action) = step(state, event);
        assert_eq!(action, expected);
    }
    assert_eq!(state, SessionState::Streaming);
}
