use flow_rs::auction::Auction;
use flow_rs::book::Book;
use flow_rs::controller::State;
use flow_rs::order::{p_wise_dem, p_wise_sup, Order, OrderType, TradeType, EPSILON};
use flow_rs::order_processing::{order_from_fields, parse_order_type, parse_trade_type, OrderProcessor};
use flow_rs::queue::Queue;
use flow_rs::queue_processing::QueueProcessor;
use flow_rs::setup_exchange;

/// One whole price/quantity unit in fixed-point ticks.
const S: i64 = 10_000_000_000_000;

fn bid(id: &str, p_low: i64, p_high: i64, u_max: i64) -> Order {
    Order::new(
        String::from(id),
        OrderType::Enter,
        TradeType::Bid,
        p_low,
        p_high,
        u_max,
        p_wise_dem(p_low, p_high, u_max),
    )
}

fn ask(id: &str, p_low: i64, p_high: i64, u_max: i64) -> Order {
    Order::new(
        String::from(id),
        OrderType::Enter,
        TradeType::Ask,
        p_low,
        p_high,
        u_max,
        p_wise_sup(p_low, p_high, u_max),
    )
}

#[test]
fn test_setup_exchange() {
    let (queue, bids, asks, state) = setup_exchange();
    assert_eq!(queue.len(), 0);
    assert_eq!(bids.book_type, TradeType::Bid);
    assert_eq!(asks.book_type, TradeType::Ask);
    assert_eq!(bids.len(), 0);
    assert_eq!(asks.len(), 0);
    assert_eq!(state, State::Process);
}

#[test]
fn test_phase_gating() {
    // Flip phase to Auction; push ten Enters; tick: books and queue are
    // untouched.  Flip to Process; tick: books grow by ten, queue empties.
    let (mut queue, mut bids, mut asks, mut state) = setup_exchange();
    state = State::Auction;
    for i in 0..10i64 {
        OrderProcessor::conc_recv_order(
            bid(&format!("t{}", i), i * S, 100 * S, 500 * S),
            &mut queue,
        );
    }
    QueueProcessor::queue_tick(&state, &mut queue, &mut bids, &mut asks);
    assert_eq!(bids.len(), 0);
    assert_eq!(asks.len(), 0);
    assert_eq!(queue.len(), 10);

    state = State::Process;
    QueueProcessor::queue_tick(&state, &mut queue, &mut bids, &mut asks);
    assert_eq!(bids.len(), 10);
    assert_eq!(asks.len(), 0);
    assert_eq!(queue.len(), 0);
}

#[test]
fn test_pre_auction_also_gates() {
    let (mut queue, mut bids, mut asks, _state) = setup_exchange();
    OrderProcessor::conc_recv_order(bid("t", 0, 100 * S, 500 * S), &mut queue);
    QueueProcessor::queue_tick(&State::PreAuction, &mut queue, &mut bids, &mut asks);
    assert_eq!(bids.len(), 0);
    assert_eq!(queue.len(), 1);
}

#[test]
fn test_calc_aggs_exact_values() {
    let mut bids = Book::new(TradeType::Bid);
    let mut asks = Book::new(TradeType::Ask);
    let _ = QueueProcessor::process_enter(bid("b", 100 * S, 200 * S, 500 * S), &mut bids);
    let _ = QueueProcessor::process_enter(ask("a", 100 * S, 200 * S, 500 * S), &mut asks);
    let (d, s) = Auction::calc_aggs(150 * S, &bids, &asks);
    assert_eq!(d, (250 * S) as i128);
    assert_eq!(s, (250 * S) as i128);
    let (d_low, s_low) = Auction::calc_aggs(50 * S, &bids, &asks);
    assert_eq!(d_low, (500 * S) as i128);
    assert_eq!(s_low, 0);
}

#[test]
fn test_aggregates_monotone() {
    // Demand never rises and supply never falls as the price climbs.
    let mut bids = Book::new(TradeType::Bid);
    let mut asks = Book::new(TradeType::Ask);
    for i in 0..100i64 {
        let _ = QueueProcessor::process_enter(
            bid(&format!("b{}", i), i * S, 100 * S, 500 * S),
            &mut bids,
        );
        let _ = QueueProcessor::process_enter(
            ask(&format!("a{}", i), i * S, 100 * S, 500 * S),
            &mut asks,
        );
    }
    let mut prev = Auction::calc_aggs(0, &bids, &asks);
    for p in 1..20i64 {
        let cur = Auction::calc_aggs(p * 7 * S, &bids, &asks);
        assert!(cur.0 <= prev.0);
        assert!(cur.1 >= prev.1);
        prev = cur;
    }
}

#[test]
fn test_empty_books_no_cross() {
    let bids = Book::new(TradeType::Bid);
    let asks = Book::new(TradeType::Ask);
    assert_eq!(Auction::bs_cross(&bids, &asks), None);
}

#[test]
fn test_found_cross_is_balanced() {
    let mut bids = Book::new(TradeType::Bid);
    let mut asks = Book::new(TradeType::Ask);
    for i in 0..100i64 {
        let _ = QueueProcessor::process_enter(
            bid(&format!("b{}", i), i * S, 100 * S, 500 * S),
            &mut bids,
        );
        let _ = QueueProcessor::process_enter(
            ask(&format!("a{}", i), i * S, 100 * S, 500 * S),
            &mut asks,
        );
    }
    let p = Auction::bs_cross(&bids, &asks).unwrap();
    assert!(0 <= p && p < 100 * S);
    let (d, s) = Auction::calc_aggs(p, &bids, &asks);
    assert!((d - s).abs() <= EPSILON as i128);
}

#[test]
fn test_auction_tick_restores_process() {
    let mut bids = Book::new(TradeType::Bid);
    let mut asks = Book::new(TradeType::Ask);
    let _ = QueueProcessor::process_enter(bid("b", 0, 100 * S, 500 * S), &mut bids);
    let _ = QueueProcessor::process_enter(ask("a", 0, 100 * S, 500 * S), &mut asks);
    let mut state = State::Process;
    let price = Auction::auction_tick(&mut state, &bids, &asks);
    assert_eq!(state, State::Process);
    assert!(price.is_some());
}

#[test]
fn test_tolerance_helpers() {
    // 1.1 + 0.4 equals 1.5 exactly in fixed point, and well within the
    // tolerance in any case.
    let a: i128 = (11 * S / 10 + 4 * S / 10) as i128;
    let b: i128 = (15 * S / 10) as i128;
    assert!(Auction::equal_e(&a, &b));

    let two: i128 = (2 * S) as i128;
    let ten: i128 = (10 * S) as i128;
    assert!(!Auction::greater_than_e(&two, &ten));
    assert!(Auction::less_than_e(&two, &ten));
    assert!(Auction::greater_than_e(&ten, &two));

    // The tolerance boundary itself: a gap of exactly EPSILON is not
    // "greater", one tick more is.
    let base: i128 = 0;
    let at_eps: i128 = EPSILON as i128;
    let over_eps: i128 = EPSILON as i128 + 1;
    assert!(!Auction::greater_than_e(&at_eps, &base));
    assert!(Auction::greater_than_e(&over_eps, &base));
    assert!(!Auction::equal_e(&at_eps, &base));
    assert!(Auction::equal_e(&(at_eps - 1), &base));
}

#[test]
fn test_parse_order_type() {
    assert_eq!(parse_order_type("enter"), Some(OrderType::Enter));
    assert_eq!(parse_order_type("Enter"), Some(OrderType::Enter));
    assert_eq!(parse_order_type("UPDATE"), Some(OrderType::Update));
    assert_eq!(parse_order_type("cAnCeL"), Some(OrderType::Cancel));
    assert_eq!(parse_order_type("hold"), None);
    assert_eq!(parse_order_type(""), None);
}

#[test]
fn test_parse_trade_type() {
    assert_eq!(parse_trade_type("bid"), Some(TradeType::Bid));
    assert_eq!(parse_trade_type("BID"), Some(TradeType::Bid));
    assert_eq!(parse_trade_type("Ask"), Some(TradeType::Ask));
    assert_eq!(parse_trade_type("sell"), None);
}

#[test]
fn test_order_from_fields() {
    let o = order_from_fields(String::from("t1"), "Enter", "bid", 0, 100 * S, 500 * S).unwrap();
    assert_eq!(o.trader_id, "t1");
    assert_eq!(o.order_type, OrderType::Enter);
    assert_eq!(o.trade_type, TradeType::Bid);
    assert_eq!(o.p_low, 0);
    assert_eq!(o.p_high, 100 * S);
    assert_eq!(o.u_max, 500 * S);

    // Unknown enum values are dropped.
    assert!(order_from_fields(String::from("t2"), "hold", "bid", 0, S, S).is_none());
    assert!(order_from_fields(String::from("t3"), "enter", "sell", 0, S, S).is_none());
    // So are out-of-schema numbers.
    assert!(order_from_fields(String::from("t4"), "enter", "bid", 2 * S, S, S).is_none());
    assert!(order_from_fields(String::from("t5"), "enter", "bid", 0, S, -S).is_none());
}

#[test]
fn test_queue_fifo_order() {
    let mut queue = Queue::new();
    for i in 0..5i64 {
        OrderProcessor::conc_recv_order(bid(&format!("t{}", i), 0, (i + 1) * S, S), &mut queue);
    }
    let drained = queue.pop_all();
    assert_eq!(drained.len(), 5);
    for (i, o) in drained.iter().enumerate() {
        assert_eq!(o.trader_id, format!("t{}", i));
    }
    assert_eq!(queue.len(), 0);
}

#[test]
fn test_update_observes_enter_in_same_batch() {
    // An Enter followed by an Update for the same trader inside one batch:
    // the Update must land on the freshly entered order.
    let (mut queue, mut bids, mut asks, state) = setup_exchange();
    OrderProcessor::conc_recv_order(bid("jo", 0, 50 * S, 100 * S), &mut queue);
    let mut upd = bid("jo", 10 * S, 80 * S, 200 * S);
    upd.order_type = OrderType::Update;
    OrderProcessor::conc_recv_order(upd, &mut queue);
    QueueProcessor::queue_tick(&state, &mut queue, &mut bids, &mut asks);
    assert_eq!(bids.len(), 1);
    assert_eq!(bids.orders[0].p_high, 80 * S);
    assert_eq!(bids.orders[0].u_max, 200 * S);
    assert_eq!(bids.get_max_price(), 80 * S);
}
