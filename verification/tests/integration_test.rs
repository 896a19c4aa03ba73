use flow_rs::auction::Auction;
use flow_rs::book::Book;
use flow_rs::order::{p_wise_dem, p_wise_sup, poly_clos_from_coef, Order, OrderType, TradeType};
use flow_rs::order_processing::OrderProcessor;
use flow_rs::queue::Queue;
use flow_rs::queue_processing::QueueProcessor;

/// One whole price/quantity unit in fixed-point ticks.
const S: i64 = 10_000_000_000_000;

fn setup_bid_order() -> Order {
    Order::new(
        String::from("bid_id"),
        OrderType::Enter,
        TradeType::Bid,
        0,
        100 * S,
        500 * S,
        // -3x + 4
        poly_clos_from_coef(vec![-3, 4]),
    )
}

fn setup_bids_book() -> Book {
    Book::new(TradeType::Bid)
}

fn setup_asks_book() -> Book {
    Book::new(TradeType::Ask)
}

fn setup_queue() -> Queue {
    Queue::new()
}

fn each_order_type() -> Vec<Order> {
    let mut orders = Vec::<Order>::new();

    let b1 = setup_bid_order();
    orders.push(b1);
    let mut b2 = setup_bid_order();
    b2.order_type = OrderType::Update;
    orders.push(b2);
    let mut b3 = setup_bid_order();
    b3.order_type = OrderType::Cancel;
    orders.push(b3);
    orders
}

fn setup_orders() -> (Vec<Order>, Vec<Order>) {
    let mut bids = Vec::<Order>::new();
    let mut asks = Vec::<Order>::new();
    for i in 0..100i64 {
        bids.push(Order::new(
            format!("bid{}", i),
            OrderType::Enter,
            TradeType::Bid,
            i * S,
            100 * S,
            500 * S,
            p_wise_dem(i * S, 100 * S, 500 * S),
        ));
        asks.push(Order::new(
            format!("ask{}", i),
            OrderType::Enter,
            TradeType::Ask,
            i * S,
            100 * S,
            500 * S,
            p_wise_sup(i * S, 100 * S, 500 * S),
        ));
    }

    (bids, asks)
}

#[test]
fn default_test() {
    assert_eq!(1, 1);
}

#[test]
fn test_add_order_to_book() {
    let bid = setup_bid_order();

    let mut book = setup_bids_book();

    let _ = book.add_order(bid);

    assert_eq!(book.len(), 1);

    let order = book.orders.pop().unwrap();

    // The default closure: -3x + 4
    assert_eq!(order.calculate(5 * S), -11 * S);
}

#[test]
fn test_conc_queue_recv_order() {
    // Setup a queue
    let mut queue = setup_queue();

    let mut order = setup_bid_order();

    // Mutate order
    order.p_high = 199 * S;

    // Accept the order
    OrderProcessor::conc_recv_order(order, &mut queue);

    // Confirm the queue's order is correct
    let order = queue.pop().unwrap();

    assert_eq!(order.p_high, 199 * S);
}

#[test]
fn test_queue_pop_all() {
    let mut queue = setup_queue();
    for order in each_order_type() {
        OrderProcessor::conc_recv_order(order, &mut queue);
    }
    let popped_off = queue.pop_all();
    assert_eq!(popped_off.len(), 3);
}

#[test]
fn test_process_queue() {
    // Setup queue and order books
    let mut queue = setup_queue();
    let mut bids_book = setup_bids_book();
    let mut asks_book = setup_asks_book();

    // Setup bids and asks
    let (bids, asks) = setup_orders();

    // Send all the orders
    for bid in bids {
        OrderProcessor::conc_recv_order(bid, &mut queue);
    }
    for ask in asks {
        OrderProcessor::conc_recv_order(ask, &mut queue);
    }

    // Process all of the orders in the queue
    QueueProcessor::conc_process_order_queue(&mut queue, &mut bids_book, &mut asks_book);

    assert_eq!(bids_book.len(), 100);
    assert_eq!(asks_book.len(), 100);

    let b_max_price = bids_book.get_max_price();
    let b_min_price = bids_book.get_min_price();
    let a_max_price = asks_book.get_max_price();
    let a_min_price = asks_book.get_min_price();

    assert_eq!(b_max_price, 100 * S);
    assert_eq!(b_min_price, 0);
    assert_eq!(a_max_price, 100 * S);
    assert_eq!(a_min_price, 0);

    let (min, max) = Auction::get_price_bounds(&bids_book, &asks_book);
    assert_eq!(min, 0);
    assert_eq!(max, 100 * S);
}

#[test]
pub fn test_find_crossing_price() {
    let mut queue = setup_queue();
    let mut bids_book = setup_bids_book();
    let mut asks_book = setup_asks_book();

    // Setup bids and asks
    let (bids, asks) = setup_orders();

    // Send all the orders
    for bid in bids {
        OrderProcessor::conc_recv_order(bid, &mut queue);
    }
    for ask in asks {
        OrderProcessor::conc_recv_order(ask, &mut queue);
    }

    // Process all of the orders in the queue
    QueueProcessor::conc_process_order_queue(&mut queue, &mut bids_book, &mut asks_book);

    assert_eq!(bids_book.len(), 100);
    assert_eq!(asks_book.len(), 100);

    let cross_price = Auction::bs_cross(&bids_book, &asks_book).unwrap();
    // 81.09048166081236 whole units, within the 10^-9 tolerance.
    assert!(Auction::equal_e(&(cross_price as i128), &810904816608124i128));
}

#[test]
pub fn test_update_order() {
    let mut queue = setup_queue();
    let mut bids_book = setup_bids_book();
    let mut asks_book = setup_asks_book();

    // Setup bids and asks
    let (mut bids, asks) = setup_orders();
    bids[0].trader_id = format!("jason");

    for bid in bids {
        OrderProcessor::conc_recv_order(bid, &mut queue);
    }
    for ask in asks {
        OrderProcessor::conc_recv_order(ask, &mut queue);
    }

    QueueProcessor::conc_process_order_queue(&mut queue, &mut bids_book, &mut asks_book);

    assert_eq!(bids_book.len(), 100);
    assert_eq!(asks_book.len(), 100);

    // Create a new order to update the book: p_low = 99.9, p_high = 555.5
    let mut update_order = setup_bid_order();
    update_order.trader_id = format!("jason");
    update_order.order_type = OrderType::Update;
    update_order.p_low = 999 * S / 10;
    update_order.p_high = 5555 * S / 10;

    // Send new order to queue
    OrderProcessor::conc_recv_order(update_order, &mut queue);

    // Process queue
    QueueProcessor::conc_process_order_queue(&mut queue, &mut bids_book, &mut asks_book);

    // Books should be same length
    assert_eq!(bids_book.len(), 100);
    assert_eq!(asks_book.len(), 100);

    // Find the order with id "jason"
    let index = bids_book.peek_id_pos(format!("jason"));

    // Unwrap the index and check the order has been updated
    if let Some(i) = index {
        let order = &bids_book.orders[i];
        assert_eq!(order.trader_id, format!("jason"));
        assert_eq!(order.p_low, 999 * S / 10);
        assert_eq!(order.p_high, 5555 * S / 10);
        assert_eq!(order.order_type, OrderType::Update);
    } else {
        panic!("Update Order should exist");
    }

    // The replacement's high bound now dominates the book's max price.
    assert!(bids_book.get_max_price() >= 5555 * S / 10);
}

#[test]
pub fn test_cancel_order() {
    let mut queue = setup_queue();
    let mut bids_book = setup_bids_book();
    let mut asks_book = setup_asks_book();

    // Setup bids and asks
    let (mut bids, asks) = setup_orders();
    bids[0].trader_id = format!("jason");
    bids[0].p_high = 99999 * S + 9 * S / 10;
    bids[0].p_low = -S;  // negative to test a low min price

    for bid in bids {
        OrderProcessor::conc_recv_order(bid, &mut queue);
    }
    for ask in asks {
        OrderProcessor::conc_recv_order(ask, &mut queue);
    }

    QueueProcessor::conc_process_order_queue(&mut queue, &mut bids_book, &mut asks_book);

    assert_eq!(bids_book.len(), 100);
    assert_eq!(asks_book.len(), 100);

    // The new max and min prices come from the mutated order
    assert_eq!(bids_book.get_max_price(), 99999 * S + 9 * S / 10);
    assert_eq!(bids_book.get_min_price(), -S);

    // Create a new order to cancel the mutated one
    let mut update_order = setup_bid_order();
    update_order.trader_id = format!("jason");
    update_order.p_high = 99999 * S + 9 * S / 10;
    update_order.order_type = OrderType::Cancel;
    update_order.p_low = -S;

    // Send new order to queue
    OrderProcessor::conc_recv_order(update_order, &mut queue);

    // Process queue
    QueueProcessor::conc_process_order_queue(&mut queue, &mut bids_book, &mut asks_book);

    // The cancelled order has left the bids book
    assert_eq!(bids_book.len(), 99);
    assert_eq!(asks_book.len(), 100);

    // Find the order with id "jason"
    let index = bids_book.peek_id_pos(format!("jason"));

    if let Some(_) = index {
        panic!("Cancel Order should not exist anymore");
    }

    // The max price drops once the order has been cancelled
    assert_ne!(bids_book.get_max_price(), 99999 * S + 9 * S / 10);

    // The min price comes from the order with p_low = 1 (the 0th was mutated)
    assert_ne!(bids_book.get_min_price(), -S);
    assert_eq!(bids_book.get_min_price(), 1 * S);
}
