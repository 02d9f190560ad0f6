use orderbook::book::BookState;
use orderbook::trades::{price_distance, TradeLog, TradeRecord, SAMPLE_GAP_MS, SAMPLE_PRICE_STEP};

const ONE: u64 = 100_000_000;

fn print(timestamp: u64, price: u64) -> TradeRecord {
    TradeRecord { timestamp, price, quantity: ONE }
}

#[test]
fn sampler_constants() {
    assert_eq!(SAMPLE_GAP_MS, 500);
    assert_eq!(SAMPLE_PRICE_STEP, ONE / 10);
}

#[test]
fn same_price_prints_are_kept_by_gap() {
    let mut book = BookState::new();
    book.insert_trade(0, 100 * ONE, ONE);
    book.insert_trade(100, 100 * ONE, ONE);
    book.insert_trade(600, 100 * ONE, ONE);
    let kept = book.drain_trades();
    assert_eq!(kept, vec![print(0, 100 * ONE), print(600, 100 * ONE)]);
}

#[test]
fn price_move_is_kept_despite_short_gap() {
    let mut book = BookState::new();
    book.insert_trade(0, 100 * ONE, ONE);
    book.insert_trade(100, 100 * ONE + ONE / 10, ONE);
    let kept = book.drain_trades();
    assert_eq!(kept, vec![print(0, 100 * ONE), print(100, 100 * ONE + ONE / 10)]);
}

#[test]
fn price_move_down_is_kept_too() {
    let mut log = TradeLog::new();
    assert!(log.offer(print(0, 100 * ONE)));
    assert!(log.offer(print(1, 100 * ONE - ONE / 10)));
    assert_eq!(log.len(), 2);
}

#[test]
fn gap_of_exactly_the_window_is_dropped() {
    let mut log = TradeLog::new();
    assert!(log.offer(print(1_000, 100 * ONE)));
    assert!(!log.offer(print(1_500, 100 * ONE)));
    assert!(log.offer(print(1_501, 100 * ONE)));
    assert_eq!(log.drain(), vec![print(1_000, 100 * ONE), print(1_501, 100 * ONE)]);
}

#[test]
fn price_move_just_under_the_step_is_dropped() {
    let mut log = TradeLog::new();
    assert!(log.offer(print(0, 100 * ONE)));
    assert!(!log.offer(print(1, 100 * ONE + ONE / 10 - 1)));
    assert!(!log.offer(print(2, 100 * ONE - ONE / 10 + 1)));
    assert_eq!(log.len(), 1);
}

#[test]
fn gap_is_measured_from_the_last_record_kept() {
    let mut log = TradeLog::new();
    assert!(log.offer(print(0, 100 * ONE)));
    assert!(!log.offer(print(400, 100 * ONE)));
    assert!(!log.offer(print(500, 100 * ONE)));
    assert!(log.offer(print(800, 100 * ONE)));
    assert_eq!(log.len(), 2);
}

#[test]
fn earlier_print_at_the_same_price_is_dropped() {
    let mut log = TradeLog::new();
    assert!(log.offer(print(10_000, 100 * ONE)));
    assert!(!log.offer(print(1_000, 100 * ONE)));
    assert!(log.offer(print(1_000, 101 * ONE)));
}

#[test]
fn drain_hands_out_everything_once() {
    let mut book = BookState::new();
    book.insert_trade(0, 100 * ONE, ONE);
    book.insert_trade(1_000, 100 * ONE, 2 * ONE);
    assert_eq!(book.pending_trades(), 2);
    let first = book.drain_trades();
    assert_eq!(first.len(), 2);
    assert_eq!(first[1].quantity, 2 * ONE);
    assert_eq!(book.pending_trades(), 0);
    assert!(book.drain_trades().is_empty());
    book.insert_trade(1_001, 100 * ONE, ONE);
    assert_eq!(book.drain_trades(), vec![print(1_001, 100 * ONE)]);
}

#[test]
fn drain_leaves_the_books_alone() {
    let mut book = BookState::new();
    book.insert_price_level("s".to_string(), true, 100 * ONE, ONE, 1, 1, true);
    book.insert_trade(0, 100 * ONE, ONE);
    book.drain_trades();
    assert_eq!(book.consolidated().bids.len(), 1);
    assert!(book.stream(&"s".to_string()).is_some());
}

#[test]
fn price_distance_is_symmetric() {
    assert_eq!(price_distance(5, 8), 3);
    assert_eq!(price_distance(8, 5), 3);
    assert_eq!(price_distance(7, 7), 0);
    assert_eq!(price_distance(0, u64::MAX), u64::MAX);
}
