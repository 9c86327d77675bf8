use flow_rs::auction::Auction;
use flow_rs::book::Book;
use flow_rs::clearing_house::ClearingHouse;
use flow_rs::exchange::MarketType;
use flow_rs::investor::Investor;
use flow_rs::maker::{Maker, MakerT};
use flow_rs::mempool::MemPool;
use flow_rs::miner::Miner;
use flow_rs::order::{ExchangeType, Order, OrderType, TradeType};
use flow_rs::processor::OrderProcessor;
use rand::Rng;

// One currency unit or share in fixed-point scale.
const UNIT: i64 = 1_000_000;
const BLOCK_SIZE: usize = 99999;

fn setup_miner() -> Miner {
    Miner::new(format!("{:?}", "asfasdf"))
}

fn setup_bid_limit_order() -> Order {
    Order::new(
        String::from("bid_id"),
        OrderType::Enter,
        TradeType::Bid,
        ExchangeType::LimitOrder,
        0,
        0,
        100 * UNIT,
        5 * UNIT,
        100_000,
    )
}

fn setup_ask_limit_order() -> Order {
    Order::new(
        String::from("ask_id"),
        OrderType::Enter,
        TradeType::Ask,
        ExchangeType::LimitOrder,
        0,
        0,
        100 * UNIT,
        5 * UNIT,
        100_000,
    )
}

fn setup_rand_limit_order(trade_type: TradeType) -> Order {
    let mut rng = rand::thread_rng();
    let low: i64 = rng.gen_range(0..UNIT);
    let high: i64 = low + rng.gen_range(0..UNIT);
    Order::new(
        format!("T{}", rng.gen_range(0..1_000_000)),
        OrderType::Enter,
        trade_type,
        ExchangeType::LimitOrder,
        low,
        high,
        rng.gen_range(0..UNIT),
        rng.gen_range(0..UNIT),
        rng.gen_range(0..UNIT),
    )
}

fn setup_full_mem_pool() -> MemPool {
    let mut pool = MemPool::new();
    let b1 = setup_bid_limit_order();
    let mut b2 = setup_bid_limit_order();
    b2.order_type = OrderType::Update;
    let mut b3 = setup_bid_limit_order();
    b3.order_type = OrderType::Cancel;
    OrderProcessor::conc_recv_order(b1, &mut pool);
    OrderProcessor::conc_recv_order(b2, &mut pool);
    OrderProcessor::conc_recv_order(b3, &mut pool);
    pool
}

fn setup_n_full_mem_pool(n: usize) -> MemPool {
    let mut pool = MemPool::new();
    for i in 0..n {
        let order = if i % 2 == 0 {
            setup_rand_limit_order(TradeType::Bid)
        } else {
            setup_rand_limit_order(TradeType::Ask)
        };
        OrderProcessor::conc_recv_order(order, &mut pool);
    }
    pool
}

fn setup_flow_orders() -> (Vec<Order>, Vec<Order>) {
    let mut bids = Vec::<Order>::new();
    let mut asks = Vec::<Order>::new();
    for i in 0..100i64 {
        bids.push(Order::new(
            format!("INV{}", i),
            OrderType::Enter,
            TradeType::Bid,
            ExchangeType::FlowOrder,
            i * UNIT,
            100 * UNIT,
            0,
            500 * UNIT,
            100_000,
        ));
        asks.push(Order::new(
            format!("MKR{}", i),
            OrderType::Enter,
            TradeType::Ask,
            ExchangeType::FlowOrder,
            i * UNIT,
            100 * UNIT,
            0,
            500 * UNIT,
            100_000,
        ));
    }
    (bids, asks)
}

#[test]
fn miner_integration_test_default_test() {
    assert_eq!(1, 1);
}

#[test]
fn miner_integration_test_test_add_order_to_book() {
    let bid = setup_bid_limit_order();
    let mut book = Book::new(TradeType::Bid);
    book.add_order(bid);
    assert_eq!(book.len(), 1);
    let order = book.orders.pop().unwrap();
    assert_eq!(order.trader_id, String::from("bid_id"));
}

#[test]
fn miner_integration_test_test_conc_queue_recv_order() {
    let mut queue = MemPool::new();
    let mut order = setup_bid_limit_order();
    order.price = 199 * UNIT;
    OrderProcessor::conc_recv_order(order, &mut queue);
    let order = queue.pop().unwrap();
    assert_eq!(order.price, 199 * UNIT);
}

#[test]
fn miner_integration_test_test_mem_pool_pop_all() {
    let mut pool = setup_full_mem_pool();
    let popped_off = pool.pop_all();
    assert_eq!(popped_off.len(), 3);
}

#[test]
fn miner_integration_test_test_mem_pool_pop_n() {
    let n = 100;
    let mut pool = setup_n_full_mem_pool(n);
    assert_eq!(pool.length(), n);
    let popped_off = pool.pop_n(n / 2);
    assert_eq!(popped_off.len(), n / 2);
}

#[test]
fn miner_integration_test_test_mem_pool_sort_gas() {
    let n = 100;
    let mut pool = setup_n_full_mem_pool(n);
    pool.sort_by_gas();
    assert_eq!(pool.length(), n);
    while pool.length() >= 2 {
        // Pop from the end of the queue: later entries carry less gas.
        let item1 = pool.pop().unwrap();
        let item2 = pool.pop().unwrap();
        assert!(item2.gas >= item1.gas);
    }
}

#[test]
fn test_miner_frontrun() {
    let n = 10;
    let mut pool = setup_n_full_mem_pool(n);
    let mut miner = setup_miner();
    assert_eq!(pool.length(), n);
    pool.sort_by_gas();
    miner.make_frame(&mut pool, BLOCK_SIZE);
    let best_bid_price = 0;
    let best_ask_price = 9_999_999 * UNIT;
    let _order = miner.strategic_front_run(best_bid_price, best_ask_price).unwrap();
    assert_eq!(miner.frame.len(), n + 1);
}

// Tests that gas priority is correct and the correct ask crosses with
// the best bid.
#[test]
fn test_cda_ask_transaction() {
    let mut pool = MemPool::new();
    let mut bids_book = Book::new(TradeType::Bid);
    let mut asks_book = Book::new(TradeType::Ask);

    let mut miner = setup_miner();
    let market_type = MarketType::CDA;

    // One bid and two asks
    let mut bid = setup_bid_limit_order();
    bid.gas = 99_999_900_000;
    bid.price = 100 * UNIT;
    bid.trader_id = format!("bid");
    let mut i1 = Investor::new(format!("bid"));
    i1.orders.push(bid.clone());

    let mut better_price_ask = setup_ask_limit_order();
    better_price_ask.gas = 10 * UNIT;
    better_price_ask.price = 0;
    better_price_ask.trader_id = format!("better_price_ask");
    let mut i2 = Investor::new(format!("better_price_ask"));
    i2.orders.push(better_price_ask.clone());

    let mut better_gas_ask = setup_ask_limit_order();
    better_gas_ask.gas = 99 * UNIT;
    better_gas_ask.price = 99 * UNIT;
    better_gas_ask.trader_id = format!("better_gas_ask");
    let mut i3 = Investor::new(format!("better_gas_ask"));
    i3.orders.push(better_gas_ask.clone());

    let mut house = ClearingHouse::new();
    house.reg_investor(i1);
    house.reg_investor(i2);
    house.reg_investor(i3);

    OrderProcessor::conc_recv_order(bid, &mut pool);
    OrderProcessor::conc_recv_order(better_price_ask, &mut pool);
    OrderProcessor::conc_recv_order(better_gas_ask, &mut pool);

    miner.make_frame(&mut pool, BLOCK_SIZE);

    // Orders in the frame are sorted in decreasing gas order
    let mut last_gas = i64::MAX;
    for order in &miner.frame {
        assert!(order.gas <= last_gas);
        last_gas = order.gas;
    }

    let vec_results = miner
        .publish_frame(&mut bids_book, &mut asks_book, market_type)
        .expect("shouldn't be none");
    for res in vec_results {
        house.update_house(res);
    }

    // Only one ask crosses and fills; the other remains
    assert_eq!(asks_book.len(), 1);
    assert_eq!(bids_book.len(), 0);

    let ask = asks_book.pop_from_end().unwrap();
    assert_eq!(ask.gas, 10 * UNIT);
    assert_eq!(ask.price, 0);

    // Order quantity 5, crossed at the resting bid price of 100
    let player = house.get_player(format!("bid")).expect("couldn't get player");
    assert_eq!(player.get_inv(), (5 * UNIT) as i128);
    assert_eq!(player.get_bal(), -((5 * UNIT) as i128) * ((100 * UNIT) as i128));

    let player = house.get_player(format!("better_price_ask")).expect("couldn't get player");
    assert_eq!(player.get_inv(), 0);
    assert_eq!(player.get_bal(), 0);

    let player = house.get_player(format!("better_gas_ask")).expect("couldn't get player");
    assert_eq!(player.get_inv(), -((5 * UNIT) as i128));
    assert_eq!(player.get_bal(), ((5 * UNIT) as i128) * ((100 * UNIT) as i128));
}

// Tests that gas priority is correct and the correct bid crosses with
// the best ask.
#[test]
fn test_cda_bid_transaction() {
    let mut pool = MemPool::new();
    let mut bids_book = Book::new(TradeType::Bid);
    let mut asks_book = Book::new(TradeType::Ask);

    let mut miner = setup_miner();
    let market_type = MarketType::CDA;

    // One ask and two bids
    let mut ask = setup_ask_limit_order();
    ask.gas = 99_999_900_000;
    ask.price = 100 * UNIT;
    ask.trader_id = format!("ask");
    let mut i1 = Investor::new(format!("ask"));
    i1.orders.push(ask.clone());

    let mut better_price_bid = setup_bid_limit_order();
    better_price_bid.gas = 10 * UNIT;
    better_price_bid.price = 99_999 * UNIT;
    better_price_bid.trader_id = format!("better_price_bid");
    let mut i2 = Investor::new(format!("better_price_bid"));
    i2.orders.push(better_price_bid.clone());

    let mut better_gas_bid = setup_bid_limit_order();
    better_gas_bid.gas = 99 * UNIT;
    better_gas_bid.price = 101 * UNIT;
    better_gas_bid.trader_id = format!("better_gas_bid");
    let mut i3 = Investor::new(format!("better_gas_bid"));
    i3.orders.push(better_gas_bid.clone());

    let mut house = ClearingHouse::new();
    house.reg_investor(i1);
    house.reg_investor(i2);
    house.reg_investor(i3);

    OrderProcessor::conc_recv_order(ask, &mut pool);
    OrderProcessor::conc_recv_order(better_price_bid, &mut pool);
    OrderProcessor::conc_recv_order(better_gas_bid, &mut pool);

    miner.make_frame(&mut pool, BLOCK_SIZE);

    let mut last_gas = i64::MAX;
    for order in &miner.frame {
        assert!(order.gas <= last_gas);
        last_gas = order.gas;
    }

    let vec_results = miner
        .publish_frame(&mut bids_book, &mut asks_book, market_type)
        .expect("shouldn't be none");
    for res in vec_results {
        house.update_house(res);
    }

    // Only one bid crosses and fills; the other remains
    assert_eq!(asks_book.len(), 0);
    assert_eq!(bids_book.len(), 1);

    let bid = bids_book.pop_from_end().unwrap();
    assert_eq!(bid.price, 99_999 * UNIT);
    assert_eq!(bid.gas, 10 * UNIT);

    let player = house.get_player(format!("ask")).expect("couldn't get player");
    assert_eq!(player.get_inv(), -((5 * UNIT) as i128));
    assert_eq!(player.get_bal(), ((5 * UNIT) as i128) * ((100 * UNIT) as i128));

    let player = house.get_player(format!("better_price_bid")).expect("couldn't get player");
    assert_eq!(player.get_inv(), 0);
    assert_eq!(player.get_bal(), 0);

    let player = house.get_player(format!("better_gas_bid")).expect("couldn't get player");
    assert_eq!(player.get_inv(), (5 * UNIT) as i128);
    assert_eq!(player.get_bal(), -((5 * UNIT) as i128) * ((100 * UNIT) as i128));
}

#[test]
fn test_klf_crossing_price() {
    let mut pool = MemPool::new();
    let mut bids_book = Book::new(TradeType::Bid);
    let mut asks_book = Book::new(TradeType::Ask);

    let (bids, asks) = setup_flow_orders();
    let mut miner = setup_miner();
    let market_type = MarketType::KLF;

    for bid in bids {
        OrderProcessor::conc_recv_order(bid, &mut pool);
    }
    for ask in asks {
        OrderProcessor::conc_recv_order(ask, &mut pool);
    }

    miner.make_frame(&mut pool, BLOCK_SIZE);

    let results = miner
        .publish_frame(&mut bids_book, &mut asks_book, market_type)
        .unwrap();

    assert_eq!(bids_book.len(), 82);
    assert_eq!(asks_book.len(), 100);

    // Within one unit (10^-6) of the real crossing at 81.09048166...
    let last = results.last().unwrap();
    let price = last.uniform_price.unwrap();
    assert!((price - 81_090_481).abs() <= 1);
    assert_eq!(price, 81_090_481);
    // On the 10^-6 quantity grid the aggregate schedules step by about
    // 1700 units per price unit here, so no representable price clears
    // within the one-unit tolerance: the search runs to its cap and
    // reports the last midpoint with these exact aggregates.
    assert_eq!(last.agg_demand, 25_000_000_523);
    assert_eq!(last.agg_supply, 24_999_999_477);
}

#[test]
fn test_klf_update_chouse() {
    let mut pool = MemPool::new();
    let mut bids_book = Book::new(TradeType::Bid);
    let mut asks_book = Book::new(TradeType::Ask);

    let (bids, asks) = setup_flow_orders();
    let mut miner = setup_miner();
    let market_type = MarketType::KLF;

    let mut house = ClearingHouse::new();
    let clearing = 81_090_481i64;

    // What each player's balance and inventory should end at
    let mut bids_vol = Vec::<(String, i128, i128)>::new();
    for bid in bids.iter() {
        let vol = bid.calc_flow_demand(clearing);
        let bal = (vol as i128) * (clearing as i128);
        bids_vol.push((bid.trader_id.clone(), bal, vol as i128));
    }
    let mut asks_vol = Vec::<(String, i128, i128)>::new();
    for ask in asks.iter() {
        let vol = ask.calc_flow_supply(clearing);
        let bal = (vol as i128) * (clearing as i128);
        asks_vol.push((ask.trader_id.clone(), bal, vol as i128));
    }

    for (i, bid) in bids.into_iter().enumerate() {
        let mut inv = Investor::new(format!("INV{}", i));
        inv.orders.push(bid.clone());
        house.reg_investor(inv);
        OrderProcessor::conc_recv_order(bid, &mut pool);
    }
    for (i, ask) in asks.into_iter().enumerate() {
        let mut mkr = Maker::new(format!("MKR{}", i), MakerT::Aggressive);
        mkr.orders.push(ask.clone());
        house.reg_maker(mkr);
        OrderProcessor::conc_recv_order(ask, &mut pool);
    }

    miner.make_frame(&mut pool, BLOCK_SIZE);

    let mut results = miner
        .publish_frame(&mut bids_book, &mut asks_book, market_type)
        .unwrap();
    let results = results.pop().unwrap();

    // The clearing price is below every ask's upper bound, so none is
    // fully filled
    assert_eq!(bids_book.len(), 82);
    assert_eq!(asks_book.len(), 100);
    assert_eq!(results.uniform_price.unwrap(), clearing);

    house.flow_batch_update(results);

    for (bid_id, bal, vol) in bids_vol {
        let player = house.get_player(bid_id).expect("couldn't get player");
        assert_eq!(player.get_inv(), vol);
        assert_eq!(player.get_bal(), -bal);
    }
    for (ask_id, bal, vol) in asks_vol {
        let player = house.get_player(ask_id).expect("couldn't get player");
        assert_eq!(player.get_inv(), -vol);
        assert_eq!(player.get_bal(), bal);
    }
}

#[test]
fn test_fba_update_chouse() {
    let mut pool = MemPool::new();
    let mut bids_book = Book::new(TradeType::Bid);
    let mut asks_book = Book::new(TradeType::Ask);

    let mut miner = setup_miner();
    let market_type = MarketType::FBA;

    let mut house = ClearingHouse::new();
    let mut i1 = Investor::new(format!("ask1"));
    let mut i2 = Investor::new(format!("ask2"));
    let mut i3 = Investor::new(format!("bid1"));
    let mut i4 = Investor::new(format!("bid2"));

    let mut ask1 = setup_ask_limit_order();
    ask1.quantity = 50 * UNIT;
    ask1.price = 11_300_000;
    ask1.trader_id = format!("ask1");
    i1.orders.push(ask1.clone());

    let mut ask2 = setup_ask_limit_order();
    ask2.quantity = 50 * UNIT;
    ask2.price = 12_500_000;
    ask2.trader_id = format!("ask2");
    i2.orders.push(ask2.clone());

    let mut bid1 = setup_bid_limit_order();
    bid1.quantity = 44 * UNIT;
    bid1.price = 12 * UNIT;
    bid1.trader_id = format!("bid1");
    i3.orders.push(bid1.clone());

    let mut bid2 = setup_bid_limit_order();
    bid2.quantity = 23 * UNIT;
    bid2.price = 11_200_000;
    bid2.trader_id = format!("bid2");
    i4.orders.push(bid2.clone());

    OrderProcessor::conc_recv_order(bid1, &mut pool);
    OrderProcessor::conc_recv_order(bid2, &mut pool);
    OrderProcessor::conc_recv_order(ask1, &mut pool);
    OrderProcessor::conc_recv_order(ask2, &mut pool);

    house.reg_investor(i1);
    house.reg_investor(i2);
    house.reg_investor(i3);
    house.reg_investor(i4);
    assert_eq!(house.num_players(), 4);

    miner.make_frame(&mut pool, BLOCK_SIZE);

    let mut results = miner
        .publish_frame(&mut bids_book, &mut asks_book, market_type)
        .unwrap();
    let results = results.pop().unwrap();

    // The filled bid was removed; the partly filled ask remains
    assert_eq!(bids_book.len(), 1);
    assert_eq!(asks_book.len(), 2);
    assert_eq!(results.uniform_price.unwrap(), 11_300_000);

    house.fba_batch_update(results);

    let player = house.get_player(format!("ask1")).expect("couldn't get player");
    assert_eq!(player.get_inv(), -((44 * UNIT) as i128));
    assert_eq!(player.get_bal(), ((44 * UNIT) as i128) * 11_300_000i128);

    let player = house.get_player(format!("ask2")).expect("couldn't get player");
    assert_eq!(player.get_inv(), 0);
    assert_eq!(player.get_bal(), 0);

    let player = house.get_player(format!("bid1")).expect("couldn't get player");
    assert_eq!(player.get_inv(), (44 * UNIT) as i128);
    assert_eq!(player.get_bal(), -((44 * UNIT) as i128) * 11_300_000i128);

    let player = house.get_player(format!("bid2")).expect("couldn't get player");
    assert_eq!(player.get_inv(), 0);
    assert_eq!(player.get_bal(), 0);
}

#[test]
fn test_fba_uniform_price1() {
    let mut pool = MemPool::new();
    let mut bids_book = Book::new(TradeType::Bid);
    let mut asks_book = Book::new(TradeType::Ask);

    let mut ask1 = setup_ask_limit_order();
    ask1.quantity = 50 * UNIT;
    ask1.price = 11_300_000;
    let ask1_id = ask1.order_id;

    let mut ask2 = setup_ask_limit_order();
    ask2.quantity = 50 * UNIT;
    ask2.price = 12_500_000;

    let mut bid1 = setup_bid_limit_order();
    bid1.quantity = 44 * UNIT;
    bid1.price = 12 * UNIT;
    let bid1_id = bid1.order_id;

    let mut bid2 = setup_bid_limit_order();
    bid2.quantity = 23 * UNIT;
    bid2.price = 11_200_000;

    let mut miner = setup_miner();
    let market_type = MarketType::FBA;

    OrderProcessor::conc_recv_order(bid1, &mut pool);
    OrderProcessor::conc_recv_order(bid2, &mut pool);
    OrderProcessor::conc_recv_order(ask1, &mut pool);
    OrderProcessor::conc_recv_order(ask2, &mut pool);

    miner.make_frame(&mut pool, BLOCK_SIZE);

    let results = miner
        .publish_frame(&mut bids_book, &mut asks_book, market_type)
        .unwrap();
    let results = results.get(results.len() - 1).unwrap();

    assert_eq!(bids_book.len(), 1);
    assert_eq!(asks_book.len(), 2);
    assert_eq!(results.uniform_price.unwrap(), 11_300_000);

    if let Some(player_updates) = &results.cross_results {
        assert_ne!(0, player_updates.len());
        for pu in player_updates {
            assert_eq!(pu.payer_order_id, bid1_id);
            assert_eq!(pu.vol_filler_order_id, ask1_id);
            assert_eq!(pu.volume, 44 * UNIT);
            assert_eq!(pu.price, 11_300_000);
        }
    }
}

#[test]
fn test_fba_uniform_price2() {
    let mut pool = MemPool::new();
    let mut bids_book = Book::new(TradeType::Bid);
    let mut asks_book = Book::new(TradeType::Ask);

    let mut ask1 = setup_ask_limit_order();
    ask1.quantity = 6 * UNIT;
    ask1.price = 11_300_000;
    let ask1_id = ask1.order_id;

    let mut ask2 = setup_ask_limit_order();
    ask2.quantity = 50 * UNIT;
    ask2.price = 12_500_000;
    let ask2_id = ask2.order_id;

    let mut bid1 = setup_bid_limit_order();
    bid1.quantity = 10 * UNIT;
    bid1.price = 15 * UNIT;
    let bid1_id = bid1.order_id;

    let mut bid2 = setup_bid_limit_order();
    bid2.quantity = 23 * UNIT;
    bid2.price = 11_200_000;

    let mut miner = setup_miner();
    let market_type = MarketType::FBA;

    OrderProcessor::conc_recv_order(bid1, &mut pool);
    OrderProcessor::conc_recv_order(bid2, &mut pool);
    OrderProcessor::conc_recv_order(ask1, &mut pool);
    OrderProcessor::conc_recv_order(ask2, &mut pool);

    miner.make_frame(&mut pool, BLOCK_SIZE);

    let results = miner
        .publish_frame(&mut bids_book, &mut asks_book, market_type)
        .unwrap();
    let results = results.get(results.len() - 1).unwrap();

    // The filled bid is removed; the completely filled ask is removed
    assert_eq!(bids_book.len(), 1);
    assert_eq!(asks_book.len(), 1);
    assert_eq!(results.uniform_price.unwrap(), 12_500_000);

    if let Some(player_updates) = &results.cross_results {
        assert_eq!(player_updates[0].payer_order_id, bid1_id);
        assert_eq!(player_updates[0].vol_filler_order_id, ask1_id);
        assert_eq!(player_updates[0].volume, 6 * UNIT);
        assert_eq!(player_updates[0].price, 12_500_000);

        assert_eq!(player_updates[1].payer_order_id, bid1_id);
        assert_eq!(player_updates[1].vol_filler_order_id, ask2_id);
        assert_eq!(player_updates[1].volume, 4 * UNIT);
        assert_eq!(player_updates[1].price, 12_500_000);
    }
}

#[test]
fn test_fba_uniform_price3() {
    let mut pool = MemPool::new();
    let mut bids_book = Book::new(TradeType::Bid);
    let mut asks_book = Book::new(TradeType::Ask);

    let mut ask1 = setup_ask_limit_order();
    ask1.quantity = 10 * UNIT;
    ask1.price = 11_200_000;
    let ask1_id = ask1.order_id;

    let mut ask2 = setup_ask_limit_order();
    ask2.quantity = 50 * UNIT;
    ask2.price = 11_600_000;
    let ask2_id = ask2.order_id;

    let mut ask3 = setup_ask_limit_order();
    ask3.quantity = 22 * UNIT;
    ask3.price = 12_300_000;

    let mut ask4 = setup_ask_limit_order();
    ask4.quantity = 30 * UNIT;
    ask4.price = 12_500_000;

    let mut bid1 = setup_bid_limit_order();
    bid1.quantity = 80 * UNIT;
    bid1.price = 12 * UNIT;
    let bid1_id = bid1.order_id;

    let mut bid2 = setup_bid_limit_order();
    bid2.quantity = 40 * UNIT;
    bid2.price = 11 * UNIT;

    let mut miner = setup_miner();
    let market_type = MarketType::FBA;

    OrderProcessor::conc_recv_order(bid1, &mut pool);
    OrderProcessor::conc_recv_order(bid2, &mut pool);
    OrderProcessor::conc_recv_order(ask1, &mut pool);
    OrderProcessor::conc_recv_order(ask2, &mut pool);
    OrderProcessor::conc_recv_order(ask3, &mut pool);
    OrderProcessor::conc_recv_order(ask4, &mut pool);

    miner.make_frame(&mut pool, BLOCK_SIZE);

    let results = miner
        .publish_frame(&mut bids_book, &mut asks_book, market_type)
        .unwrap();
    let results = results.get(results.len() - 1).unwrap();

    assert_eq!(bids_book.len(), 2);
    assert_eq!(asks_book.len(), 2);
    assert_eq!(results.uniform_price.expect("no price!!"), 12 * UNIT);
    assert_eq!(results.agg_supply, (60 * UNIT) as i128);

    if let Some(player_updates) = &results.cross_results {
        assert_eq!(player_updates[0].payer_order_id, bid1_id);
        assert_eq!(player_updates[0].vol_filler_order_id, ask1_id);
        assert_eq!(player_updates[0].volume, 10 * UNIT);
        assert_eq!(player_updates[0].price, 12 * UNIT);

        assert_eq!(player_updates[1].payer_order_id, bid1_id);
        assert_eq!(player_updates[1].vol_filler_order_id, ask2_id);
        assert_eq!(player_updates[1].volume, 50 * UNIT);
        assert_eq!(player_updates[1].price, 12 * UNIT);
    }
}

#[test]
fn test_fba_no_cross() {
    let mut pool = MemPool::new();
    let mut bids_book = Book::new(TradeType::Bid);
    let mut asks_book = Book::new(TradeType::Ask);

    let mut ask1 = setup_ask_limit_order();
    ask1.quantity = 6 * UNIT;
    ask1.price = 11_300_000;

    let mut ask2 = setup_ask_limit_order();
    ask2.quantity = 50 * UNIT;
    ask2.price = 12_500_000;

    let mut miner = setup_miner();
    let market_type = MarketType::FBA;

    OrderProcessor::conc_recv_order(ask1, &mut pool);
    OrderProcessor::conc_recv_order(ask2, &mut pool);

    miner.make_frame(&mut pool, BLOCK_SIZE);

    let results = miner
        .publish_frame(&mut bids_book, &mut asks_book, market_type)
        .unwrap();
    let results = results.get(results.len() - 1).unwrap();

    assert_eq!(bids_book.len(), 0);
    assert_eq!(asks_book.len(), 2);
    assert!(results.uniform_price.is_none());
}

#[test]
fn test_fba_vertical_cross() {
    let mut pool = MemPool::new();
    let mut bids_book = Book::new(TradeType::Bid);
    let mut asks_book = Book::new(TradeType::Ask);

    let mut ask1 = setup_ask_limit_order();
    ask1.quantity = 50 * UNIT;
    ask1.price = 11_300_000;
    let ask1_id = ask1.order_id;

    let mut ask2 = setup_ask_limit_order();
    ask2.quantity = 50 * UNIT;
    ask2.price = 12_500_000;

    let mut bid1 = setup_bid_limit_order();
    bid1.quantity = 44 * UNIT;
    bid1.price = 11_300_000;
    let bid1_id = bid1.order_id;

    let mut bid2 = setup_bid_limit_order();
    bid2.quantity = 23 * UNIT;
    bid2.price = 11_200_000;

    let mut miner = setup_miner();
    let market_type = MarketType::FBA;

    OrderProcessor::conc_recv_order(bid1, &mut pool);
    OrderProcessor::conc_recv_order(bid2, &mut pool);
    OrderProcessor::conc_recv_order(ask1, &mut pool);
    OrderProcessor::conc_recv_order(ask2, &mut pool);

    miner.make_frame(&mut pool, BLOCK_SIZE);

    let results = miner
        .publish_frame(&mut bids_book, &mut asks_book, market_type)
        .unwrap();
    let results = results.get(results.len() - 1).unwrap();

    assert_eq!(bids_book.len(), 1);
    assert_eq!(asks_book.len(), 2);
    assert_eq!(results.uniform_price.unwrap(), 11_300_000);

    if let Some(player_updates) = &results.cross_results {
        for pu in player_updates {
            assert_eq!(pu.payer_order_id, bid1_id);
            assert_eq!(pu.vol_filler_order_id, ask1_id);
            assert_eq!(pu.volume, 44 * UNIT);
            assert_eq!(pu.price, 11_300_000);
        }
    }
}

#[test]
fn test_fba_vertical_cross2() {
    let mut pool = MemPool::new();
    let mut bids_book = Book::new(TradeType::Bid);
    let mut asks_book = Book::new(TradeType::Ask);

    let mut ask1 = setup_ask_limit_order();
    ask1.quantity = 10 * UNIT;
    ask1.price = 11_200_000;
    let ask1_id = ask1.order_id;

    let mut ask2 = setup_ask_limit_order();
    ask2.quantity = 50 * UNIT;
    ask2.price = 11_600_000;
    let ask2_id = ask2.order_id;

    let mut ask3 = setup_ask_limit_order();
    ask3.quantity = 22 * UNIT;
    ask3.price = 12_300_000;
    let ask3_id = ask3.order_id;

    let mut ask4 = setup_ask_limit_order();
    ask4.quantity = 30 * UNIT;
    ask4.price = 12_500_000;

    let mut bid1 = setup_bid_limit_order();
    bid1.quantity = 61 * UNIT;
    bid1.price = 12_300_000;
    let bid1_id = bid1.order_id;

    let mut bid2 = setup_bid_limit_order();
    bid2.quantity = 40 * UNIT;
    bid2.price = 11 * UNIT;

    let mut miner = setup_miner();
    let market_type = MarketType::FBA;

    OrderProcessor::conc_recv_order(bid1, &mut pool);
    OrderProcessor::conc_recv_order(bid2, &mut pool);
    OrderProcessor::conc_recv_order(ask1, &mut pool);
    OrderProcessor::conc_recv_order(ask2, &mut pool);
    OrderProcessor::conc_recv_order(ask3, &mut pool);
    OrderProcessor::conc_recv_order(ask4, &mut pool);

    miner.make_frame(&mut pool, BLOCK_SIZE);

    let results = miner
        .publish_frame(&mut bids_book, &mut asks_book, market_type)
        .unwrap();
    let results = results.get(results.len() - 1).unwrap();

    assert_eq!(bids_book.len(), 1);
    assert_eq!(asks_book.len(), 2);
    assert_eq!(results.uniform_price.expect("no price!!"), 12_300_000);
    assert_eq!(results.agg_supply, (61 * UNIT) as i128);

    if let Some(player_updates) = &results.cross_results {
        assert_eq!(player_updates[0].payer_order_id, bid1_id);
        assert_eq!(player_updates[0].vol_filler_order_id, ask1_id);
        assert_eq!(player_updates[0].volume, 10 * UNIT);
        assert_eq!(player_updates[0].price, 12_300_000);

        assert_eq!(player_updates[1].payer_order_id, bid1_id);
        assert_eq!(player_updates[1].vol_filler_order_id, ask2_id);
        assert_eq!(player_updates[1].volume, 50 * UNIT);
        assert_eq!(player_updates[1].price, 12_300_000);

        assert_eq!(player_updates[2].payer_order_id, bid1_id);
        assert_eq!(player_updates[2].vol_filler_order_id, ask3_id);
        assert_eq!(player_updates[2].volume, 1 * UNIT);
        assert_eq!(player_updates[2].price, 12_300_000);
    }
}

#[test]
fn test_fba_horizontal_cross2() {
    let mut pool = MemPool::new();
    let mut bids_book = Book::new(TradeType::Bid);
    let mut asks_book = Book::new(TradeType::Ask);

    let mut ask1 = setup_ask_limit_order();
    ask1.quantity = 10 * UNIT;
    ask1.price = 11_200_000;
    let ask1_id = ask1.order_id;

    let mut ask2 = setup_ask_limit_order();
    ask2.quantity = 50 * UNIT;
    ask2.price = 11_600_000;
    let ask2_id = ask2.order_id;

    let mut ask3 = setup_ask_limit_order();
    ask3.quantity = 22 * UNIT;
    ask3.price = 12_300_000;

    let mut ask4 = setup_ask_limit_order();
    ask4.quantity = 30 * UNIT;
    ask4.price = 12_500_000;

    let mut bid1 = setup_bid_limit_order();
    bid1.quantity = 60 * UNIT;
    bid1.price = 12_400_000;
    let bid1_id = bid1.order_id;

    let mut bid2 = setup_bid_limit_order();
    bid2.quantity = 40 * UNIT;
    bid2.price = 11 * UNIT;

    let mut miner = setup_miner();
    let market_type = MarketType::FBA;

    OrderProcessor::conc_recv_order(bid1, &mut pool);
    OrderProcessor::conc_recv_order(bid2, &mut pool);
    OrderProcessor::conc_recv_order(ask1, &mut pool);
    OrderProcessor::conc_recv_order(ask2, &mut pool);
    OrderProcessor::conc_recv_order(ask3, &mut pool);
    OrderProcessor::conc_recv_order(ask4, &mut pool);

    miner.make_frame(&mut pool, BLOCK_SIZE);

    let results = miner
        .publish_frame(&mut bids_book, &mut asks_book, market_type)
        .unwrap();
    let results = results.get(results.len() - 1).unwrap();

    assert_eq!(bids_book.len(), 1);
    assert_eq!(asks_book.len(), 2);
    assert_eq!(results.uniform_price.expect("no price!!"), 12_350_000);
    assert_eq!(results.agg_supply, (60 * UNIT) as i128);

    if let Some(player_updates) = &results.cross_results {
        assert_eq!(player_updates[0].payer_order_id, bid1_id);
        assert_eq!(player_updates[0].vol_filler_order_id, ask1_id);
        assert_eq!(player_updates[0].volume, 10 * UNIT);
        assert_eq!(player_updates[0].price, 12_350_000);

        assert_eq!(player_updates[1].payer_order_id, bid1_id);
        assert_eq!(player_updates[1].vol_filler_order_id, ask2_id);
        assert_eq!(player_updates[1].volume, 50 * UNIT);
        assert_eq!(player_updates[1].price, 12_350_000);
    }
}
