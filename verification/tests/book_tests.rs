use flow_rs::book::{Book, OrderError};
use flow_rs::order::{p_wise_dem, Order, OrderType, TradeType, PRICE_MAX};
use flow_rs::queue_processing::QueueProcessor;

/// One whole price/quantity unit in fixed-point ticks.
const S: i64 = 10_000_000_000_000;

fn bid(id: &str, p_low: i64, p_high: i64, u_max: i64) -> Order {
    Order::new(
        String::from(id),
        OrderType::Enter,
        TradeType::Bid,
        p_low,
        p_high,
        u_max,
        p_wise_dem(p_low, p_high, u_max),
    )
}

#[test]
fn test_new_book() {
    let book = Book::new(TradeType::Bid);
    assert_eq!(book.book_type, TradeType::Bid);
    assert_eq!(book.min_price, PRICE_MAX);
    assert_eq!(book.max_price, 0);
}

#[test]
fn test_duplicate_enter_rejected() {
    let mut book = Book::new(TradeType::Bid);
    let r1 = QueueProcessor::process_enter(bid("alice", 10 * S, 50 * S, 100 * S), &mut book);
    assert!(r1.is_ok());
    let r2 = QueueProcessor::process_enter(bid("alice", 20 * S, 60 * S, 100 * S), &mut book);
    assert_eq!(r2, Err(OrderError::DuplicateId));
    // The second Enter was dropped whole: one live order per trader per side.
    assert_eq!(book.len(), 1);
    assert_eq!(book.orders[0].p_low, 10 * S);
}

#[test]
fn test_update_not_found() {
    let mut book = Book::new(TradeType::Bid);
    let r1 = QueueProcessor::process_enter(bid("alice", 10 * S, 50 * S, 100 * S), &mut book);
    assert!(r1.is_ok());
    let mut o = bid("ghost", 20 * S, 60 * S, 100 * S);
    o.order_type = OrderType::Update;
    let r2 = QueueProcessor::process_update(o, &mut book);
    assert_eq!(r2, Err(OrderError::NotFound));
    assert_eq!(book.len(), 1);
    assert_eq!(book.get_min_price(), 10 * S);
    assert_eq!(book.get_max_price(), 50 * S);
}

#[test]
fn test_cancel_not_found() {
    let mut book = Book::new(TradeType::Bid);
    let r1 = QueueProcessor::process_enter(bid("alice", 10 * S, 50 * S, 100 * S), &mut book);
    assert!(r1.is_ok());
    let mut o = bid("ghost", 0, 0, 0);
    o.order_type = OrderType::Cancel;
    let r2 = QueueProcessor::process_cancel(o, &mut book);
    assert_eq!(r2, Err(OrderError::NotFound));
    assert_eq!(book.len(), 1);
}

#[test]
fn test_bounds_dominate_live_orders() {
    // After a mix of operations every live order's bounds sit inside the
    // cached ones.
    let mut book = Book::new(TradeType::Bid);
    let _ = QueueProcessor::process_enter(bid("a", 5 * S, 40 * S, 100 * S), &mut book);
    let _ = QueueProcessor::process_enter(bid("b", -3 * S, 90 * S, 100 * S), &mut book);
    let _ = QueueProcessor::process_enter(bid("c", 17 * S, 22 * S, 100 * S), &mut book);
    let mut upd = bid("b", 2 * S, 30 * S, 100 * S);
    upd.order_type = OrderType::Update;
    let _ = QueueProcessor::process_update(upd, &mut book);
    let mut cncl = bid("a", 5 * S, 40 * S, 100 * S);
    cncl.order_type = OrderType::Cancel;
    let _ = QueueProcessor::process_cancel(cncl, &mut book);
    assert_eq!(book.len(), 2);
    for o in &book.orders {
        assert!(book.min_price <= o.p_low);
        assert!(o.p_high <= book.max_price);
    }
}

#[test]
fn test_orders_sorted_by_p_high() {
    let mut book = Book::new(TradeType::Bid);
    let _ = QueueProcessor::process_enter(bid("a", 0, 70 * S, 10 * S), &mut book);
    let _ = QueueProcessor::process_enter(bid("b", 0, 10 * S, 10 * S), &mut book);
    let _ = QueueProcessor::process_enter(bid("c", 0, 40 * S, 10 * S), &mut book);
    let _ = QueueProcessor::process_enter(bid("d", 0, 40 * S, 10 * S), &mut book);
    assert_eq!(book.len(), 4);
    for w in book.orders.windows(2) {
        assert!(w[0].p_high <= w[1].p_high);
    }
}

#[test]
fn test_enter_cancel_round_trip() {
    // An Enter followed by an identical Cancel leaves the book as it was:
    // same size, same bounds.
    let mut book = Book::new(TradeType::Bid);
    let _ = QueueProcessor::process_enter(bid("a", 5 * S, 40 * S, 100 * S), &mut book);
    let _ = QueueProcessor::process_enter(bid("b", 8 * S, 25 * S, 100 * S), &mut book);
    let len0 = book.len();
    let min0 = book.get_min_price();
    let max0 = book.get_max_price();

    let _ = QueueProcessor::process_enter(bid("zoe", 1 * S, 99 * S, 100 * S), &mut book);
    assert_eq!(book.len(), len0 + 1);
    let mut cncl = bid("zoe", 1 * S, 99 * S, 100 * S);
    cncl.order_type = OrderType::Cancel;
    let _ = QueueProcessor::process_cancel(cncl, &mut book);

    assert_eq!(book.len(), len0);
    assert_eq!(book.get_min_price(), min0);
    assert_eq!(book.get_max_price(), max0);
}

#[test]
fn test_cancel_to_empty_restores_sentinels() {
    let mut book = Book::new(TradeType::Bid);
    let _ = QueueProcessor::process_enter(bid("solo", 5 * S, 40 * S, 100 * S), &mut book);
    let mut cncl = bid("solo", 5 * S, 40 * S, 100 * S);
    cncl.order_type = OrderType::Cancel;
    let _ = QueueProcessor::process_cancel(cncl, &mut book);
    assert_eq!(book.len(), 0);
    assert_eq!(book.get_min_price(), PRICE_MAX);
    assert_eq!(book.get_max_price(), 0);
}

#[test]
fn test_update_rescans_lost_maximum() {
    let mut book = Book::new(TradeType::Bid);
    let _ = QueueProcessor::process_enter(bid("a", 0, 70 * S, 10 * S), &mut book);
    let _ = QueueProcessor::process_enter(bid("b", 0, 90 * S, 10 * S), &mut book);
    assert_eq!(book.get_max_price(), 90 * S);
    // Shrink the order that carried the maximum: the cache must fall back to
    // the next-largest bound.
    let mut upd = bid("b", 0, 20 * S, 10 * S);
    upd.order_type = OrderType::Update;
    let _ = QueueProcessor::process_update(upd, &mut book);
    assert_eq!(book.get_max_price(), 70 * S);
}
