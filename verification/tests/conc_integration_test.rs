use flow_rs::book::Book;
use flow_rs::exchange::MarketType;
use flow_rs::mempool::MemPool;
use flow_rs::order::{ExchangeType, Order, OrderType, TradeType};
use flow_rs::processor::{MemPoolProcessor, OrderProcessor};
use rand::Rng;

// One currency unit or share in fixed-point scale.
const UNIT: i64 = 1_000_000;

fn setup_bid_limit_order() -> Order {
    Order::new(
        String::from("bid_id"),
        OrderType::Enter,
        TradeType::Bid,
        ExchangeType::LimitOrder,
        0,
        0,
        100 * UNIT,
        5 * UNIT,
        100_000,
    )
}

fn setup_rand_limit_order(trade_type: TradeType) -> Order {
    let mut rng = rand::thread_rng();
    let low: i64 = rng.gen_range(0..UNIT);
    let high: i64 = low + rng.gen_range(0..UNIT);
    Order::new(
        format!("T{}", rng.gen_range(0..1_000_000)),
        OrderType::Enter,
        trade_type,
        ExchangeType::LimitOrder,
        low,
        high,
        rng.gen_range(0..UNIT),
        rng.gen_range(0..UNIT),
        rng.gen_range(0..UNIT),
    )
}

fn setup_full_mem_pool() -> MemPool {
    let mut pool = MemPool::new();
    let b1 = setup_bid_limit_order();
    let mut b2 = setup_bid_limit_order();
    b2.order_type = OrderType::Update;
    let mut b3 = setup_bid_limit_order();
    b3.order_type = OrderType::Cancel;
    OrderProcessor::conc_recv_order(b1, &mut pool);
    OrderProcessor::conc_recv_order(b2, &mut pool);
    OrderProcessor::conc_recv_order(b3, &mut pool);
    pool
}

fn setup_n_full_mem_pool(n: usize) -> MemPool {
    let mut pool = MemPool::new();
    for i in 0..n {
        let order = if i % 2 == 0 {
            setup_rand_limit_order(TradeType::Bid)
        } else {
            setup_rand_limit_order(TradeType::Ask)
        };
        OrderProcessor::conc_recv_order(order, &mut pool);
    }
    pool
}

#[test]
fn conc_integration_test_default_test() {
    assert_eq!(1, 1);
}

#[test]
fn conc_integration_test_test_add_order_to_book() {
    let bid = setup_bid_limit_order();
    let mut book = Book::new(TradeType::Bid);
    book.add_order(bid);
    assert_eq!(book.len(), 1);
    let _order = book.orders.pop().unwrap();
}

#[test]
fn conc_integration_test_test_conc_queue_recv_order() {
    let mut queue = MemPool::new();
    let mut order = setup_bid_limit_order();
    order.price = 199 * UNIT;
    OrderProcessor::conc_recv_order(order, &mut queue);
    let order = queue.pop().unwrap();
    assert_eq!(order.price, 199 * UNIT);
}

#[test]
fn conc_integration_test_test_mem_pool_pop_all() {
    let mut pool = setup_full_mem_pool();
    let popped_off = pool.pop_all();
    assert_eq!(popped_off.len(), 3);
}

#[test]
fn conc_integration_test_test_mem_pool_pop_n() {
    let n = 100;
    let mut pool = setup_n_full_mem_pool(n);
    assert_eq!(pool.length(), n);
    let popped_off = pool.pop_n(n / 2);
    assert_eq!(popped_off.len(), n / 2);
}

#[test]
fn conc_integration_test_test_mem_pool_sort_gas() {
    let n = 100;
    let mut pool = setup_n_full_mem_pool(n);
    pool.sort_by_gas();
    assert_eq!(pool.length(), n);
    while pool.length() >= 2 {
        // Pop from the end of the queue: later entries carry less gas.
        let item1 = pool.pop().unwrap();
        let item2 = pool.pop().unwrap();
        assert!(item2.gas >= item1.gas);
    }
}

fn setup_ask_limit_order() -> Order {
    Order::new(
        String::from("ask_id"),
        OrderType::Enter,
        TradeType::Ask,
        ExchangeType::LimitOrder,
        0,
        0,
        100 * UNIT,
        5 * UNIT,
        100_000,
    )
}

// Bids at prices 1..=100 and asks at prices 1..=100, five and fifty
// shares each.
fn setup_orders() -> (Vec<Order>, Vec<Order>) {
    let mut bids = Vec::<Order>::new();
    let mut asks = Vec::<Order>::new();
    for i in 1..101i64 {
        bids.push(Order::new(
            format!("INV{}", i),
            OrderType::Enter,
            TradeType::Bid,
            ExchangeType::LimitOrder,
            0,
            0,
            i * UNIT,
            5 * UNIT,
            500_000,
        ));
        asks.push(Order::new(
            format!("MKR{}", i),
            OrderType::Enter,
            TradeType::Ask,
            ExchangeType::LimitOrder,
            0,
            0,
            i * UNIT,
            50 * UNIT,
            500_000,
        ));
    }
    (bids, asks)
}

// N bids at prices 1..=N, a market ask, and an ask too dear to trade.
fn setup_ask_cross_orders(num_bids: usize) -> (Vec<Order>, Vec<Order>) {
    let mut bids = Vec::<Order>::new();
    let mut asks = Vec::<Order>::new();
    for i in 1..=num_bids as i64 {
        bids.push(Order::new(
            format!("B{}", i),
            OrderType::Enter,
            TradeType::Bid,
            ExchangeType::LimitOrder,
            0,
            0,
            i * UNIT,
            5 * UNIT,
            500_000,
        ));
    }
    asks.push(Order::new(
        "mkt".to_string(),
        OrderType::Enter,
        TradeType::Ask,
        ExchangeType::LimitOrder,
        0,
        0,
        0,
        50 * UNIT,
        500_000,
    ));
    asks.push(Order::new(
        "high".to_string(),
        OrderType::Enter,
        TradeType::Ask,
        ExchangeType::LimitOrder,
        0,
        0,
        1000 * num_bids as i64 * UNIT,
        50 * UNIT,
        500_000,
    ));
    (bids, asks)
}

// N asks at prices 51..=50+N, a market bid, and a bid too low to trade.
fn setup_bid_cross_orders(num_asks: usize) -> (Vec<Order>, Vec<Order>) {
    let mut bids = Vec::<Order>::new();
    let mut asks = Vec::<Order>::new();
    for i in 1..=num_asks as i64 {
        asks.push(Order::new(
            format!("A{}", i),
            OrderType::Enter,
            TradeType::Ask,
            ExchangeType::LimitOrder,
            0,
            0,
            (50 + i) * UNIT,
            5 * UNIT,
            500_000,
        ));
    }
    bids.push(Order::new(
        "mkt".to_string(),
        OrderType::Enter,
        TradeType::Bid,
        ExchangeType::LimitOrder,
        0,
        0,
        1000 * num_asks as i64 * UNIT,
        50 * UNIT,
        500_000,
    ));
    bids.push(Order::new(
        "low".to_string(),
        OrderType::Enter,
        TradeType::Bid,
        ExchangeType::LimitOrder,
        0,
        0,
        0,
        50 * UNIT,
        500_000,
    ));
    (bids, asks)
}

fn process(frame: Vec<Order>, bids: &mut Book, asks: &mut Book) {
    let mut frame = frame;
    let _ = MemPoolProcessor::seq_process_orders(&mut frame, bids, asks, MarketType::CDA);
}

#[test]
fn test_update_bid() {
    let mut bids_book = Book::new(TradeType::Bid);
    let mut asks_book = Book::new(TradeType::Ask);

    let (mut bids, _asks) = setup_orders();
    bids[0].trader_id = format!("jason");
    let jason_id = bids[0].order_id;
    process(bids, &mut bids_book, &mut asks_book);

    assert_eq!(bids_book.len(), 100);

    // A new order replacing jason's resting bid
    let mut update_order = setup_bid_limit_order();
    update_order.trader_id = format!("jason");
    update_order.order_type = OrderType::Update;
    update_order.order_id = jason_id;
    update_order.price = 99_900_000;
    update_order.quantity = 555_500_000;
    process(vec![update_order], &mut bids_book, &mut asks_book);

    // The book is the same length: one out, one in
    assert_eq!(bids_book.len(), 100);

    let index = bids_book.peek_id_pos(format!("jason"));
    if let Some(i) = index {
        let order = &bids_book.orders[i];
        assert_eq!(order.trader_id, format!("jason"));
        assert_eq!(order.price, 99_900_000);
        assert_eq!(order.quantity, 555_500_000);
        assert_eq!(order.order_type, OrderType::Update);
    } else {
        panic!("Update Order should exist");
    }
}

#[test]
fn test_update_ask() {
    let mut bids_book = Book::new(TradeType::Bid);
    let mut asks_book = Book::new(TradeType::Ask);

    let (_bids, mut asks) = setup_orders();
    asks[0].trader_id = format!("jason");
    let jason_id = asks[0].order_id;
    process(asks, &mut bids_book, &mut asks_book);

    assert_eq!(asks_book.len(), 100);

    let mut update_order = setup_ask_limit_order();
    update_order.trader_id = format!("jason");
    update_order.order_type = OrderType::Update;
    update_order.order_id = jason_id;
    update_order.price = 99_900_000;
    update_order.quantity = 555_500_000;
    process(vec![update_order], &mut bids_book, &mut asks_book);

    assert_eq!(asks_book.len(), 100);

    let index = asks_book.peek_id_pos(format!("jason"));
    if let Some(i) = index {
        let order = &asks_book.orders[i];
        assert_eq!(order.trader_id, format!("jason"));
        assert_eq!(order.price, 99_900_000);
        assert_eq!(order.quantity, 555_500_000);
        assert_eq!(order.order_type, OrderType::Update);
    } else {
        panic!("Update Order should exist");
    }
}

#[test]
fn test_cancel_bid() {
    let mut bids_book = Book::new(TradeType::Bid);
    let mut asks_book = Book::new(TradeType::Ask);

    let (mut bids, _asks) = setup_orders();
    bids[0].trader_id = format!("jason");
    bids[0].price = 99_999_900_000;
    bids[0].quantity = UNIT;
    let jason_id = bids[0].order_id;
    process(bids, &mut bids_book, &mut asks_book);

    assert_eq!(bids_book.len(), 100);
    // The mutated order carries the highest price
    assert_eq!(bids_book.get_max_price(), 99_999_900_000);

    let mut cancel_order = setup_bid_limit_order();
    cancel_order.trader_id = format!("jason");
    cancel_order.order_type = OrderType::Cancel;
    cancel_order.order_id = jason_id;
    cancel_order.price = 999_900_000;
    cancel_order.quantity = UNIT;
    process(vec![cancel_order], &mut bids_book, &mut asks_book);

    // The book is shorter by one
    assert_eq!(bids_book.len(), 99);

    let index = bids_book.peek_id_pos(format!("jason"));
    if let Some(_) = index {
        panic!("Cancel Order should not exist anymore");
    }

    // The cached maximum drops to the next-best bid
    assert_ne!(bids_book.get_max_price(), 99_999_900_000);
    assert_eq!(bids_book.get_max_price(), 100 * UNIT);
}

#[test]
fn test_cancel_ask() {
    let mut bids_book = Book::new(TradeType::Bid);
    let mut asks_book = Book::new(TradeType::Ask);

    let (_bids, mut asks) = setup_orders();
    asks[0].trader_id = format!("jason");
    asks[0].price = 100_000;
    asks[0].quantity = 10 * UNIT;
    let jason_id = asks[0].order_id;
    process(asks, &mut bids_book, &mut asks_book);

    assert_eq!(asks_book.len(), 100);
    // The mutated order carries the best (lowest) price
    assert_eq!(asks_book.get_min_price(), 100_000);

    let mut cancel_order = setup_ask_limit_order();
    cancel_order.trader_id = format!("jason");
    cancel_order.order_type = OrderType::Cancel;
    cancel_order.order_id = jason_id;
    cancel_order.price = 99_999_900_000;
    cancel_order.quantity = UNIT;
    process(vec![cancel_order], &mut bids_book, &mut asks_book);

    assert_eq!(asks_book.len(), 99);

    let index = asks_book.peek_id_pos(format!("jason"));
    if let Some(_) = index {
        panic!("Cancel Order should not exist anymore");
    }

    // The cached minimum rises to the next-best ask
    assert_ne!(asks_book.get_min_price(), 100_000);
    assert_eq!(asks_book.get_min_price(), 2 * UNIT);
}

#[test]
fn test_update_ask_to_cross() {
    let mut bids_book = Book::new(TradeType::Bid);
    let mut asks_book = Book::new(TradeType::Ask);

    let mut rng = rand::thread_rng();
    let num_bids: usize = rng.gen_range(11..=1000);
    let (bids, mut asks) = setup_ask_cross_orders(num_bids);
    process(bids, &mut bids_book, &mut asks_book);

    assert_eq!(bids_book.len(), num_bids);
    assert_eq!(bids_book.get_max_price(), num_bids as i64 * UNIT);

    // Price the market ask out of range so neither ask crosses yet
    asks[0].trader_id = format!("jason");
    asks[0].price = 99_999 * UNIT;
    asks[0].quantity = 50 * UNIT;
    let jason_id = asks[0].order_id;
    process(asks, &mut bids_book, &mut asks_book);

    assert_eq!(asks_book.len(), 2);

    // Reprice jason's ask to a market order; its fifty shares sweep
    // ten five-share bids
    let mut update_order = setup_ask_limit_order();
    update_order.trader_id = format!("jason");
    update_order.order_type = OrderType::Update;
    update_order.order_id = jason_id;
    update_order.price = 0;
    update_order.quantity = 50 * UNIT;
    process(vec![update_order], &mut bids_book, &mut asks_book);

    assert_eq!(bids_book.len(), num_bids - 10);
    assert_eq!(bids_book.get_max_price(), (num_bids as i64 - 10) * UNIT);
    assert_eq!(asks_book.get_min_price(), 1000 * num_bids as i64 * UNIT);
    assert_eq!(asks_book.len(), 1);
}

#[test]
fn test_update_bid_to_cross() {
    let mut bids_book = Book::new(TradeType::Bid);
    let mut asks_book = Book::new(TradeType::Ask);

    let mut rng = rand::thread_rng();
    let num_asks: usize = rng.gen_range(11..=1000);
    let (mut bids, asks) = setup_bid_cross_orders(num_asks);
    process(asks, &mut bids_book, &mut asks_book);

    assert_eq!(asks_book.len(), num_asks);
    assert_eq!(asks_book.get_min_price(), 51 * UNIT);

    // Price the market bid down to zero so neither bid crosses yet
    bids[0].trader_id = format!("jason");
    bids[0].price = 0;
    bids[0].quantity = 50 * UNIT;
    let jason_id = bids[0].order_id;
    process(bids, &mut bids_book, &mut asks_book);

    assert_eq!(bids_book.len(), 2);

    // Reprice jason's bid to a market order; its fifty shares sweep
    // ten five-share asks
    let mut update_order = setup_bid_limit_order();
    update_order.trader_id = format!("jason");
    update_order.order_type = OrderType::Update;
    update_order.order_id = jason_id;
    update_order.price = 999_999 * UNIT;
    update_order.quantity = 50 * UNIT;
    process(vec![update_order], &mut bids_book, &mut asks_book);

    assert_eq!(asks_book.len(), num_asks - 10);
    assert_eq!(bids_book.get_max_price(), 0);
    assert_eq!(bids_book.len(), 1);
}
