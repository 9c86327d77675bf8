use flow_rs::book::{Book, PRICE_INF};
use flow_rs::auction::Auction;
use flow_rs::clearing_house::ClearingHouse;
use flow_rs::exchange::MarketType;
use flow_rs::history::{History, LikelihoodStats, PriorData};
use flow_rs::investor::{investor_order, Investor};
use flow_rs::maker::{Maker, MakerT};
use flow_rs::mempool::MemPool;
use flow_rs::miner::Miner;
use flow_rs::order::{ExchangeType, Order, OrderType, TradeType};
use flow_rs::processor::OrderProcessor;
use flow_rs::simulation::Constants;
use rand::Rng;

// One currency unit or share in fixed-point scale.
const UNIT: i64 = 1_000_000;
const BLOCK_SIZE: usize = 99999;

fn limit_order(id: &str, tt: TradeType, price: i64, qty: i64, gas: i64) -> Order {
    Order::new(
        id.to_string(),
        OrderType::Enter,
        tt,
        ExchangeType::LimitOrder,
        0,
        0,
        price,
        qty,
        gas,
    )
}

fn flow_order(id: &str, tt: TradeType, p_low: i64, p_high: i64, qty: i64) -> Order {
    Order::new(
        id.to_string(),
        OrderType::Enter,
        tt,
        ExchangeType::FlowOrder,
        p_low,
        p_high,
        0,
        qty,
        100_000,
    )
}

// The tail's price always equals the cached best price after mutations.
#[test]
fn test_best_price_cache_in_sync() {
    let mut bids = Book::new(TradeType::Bid);
    bids.add_order(limit_order("a", TradeType::Bid, 10 * UNIT, UNIT, 0));
    bids.add_order(limit_order("b", TradeType::Bid, 30 * UNIT, UNIT, 0));
    let c = limit_order("c", TradeType::Bid, 20 * UNIT, UNIT, 0);
    let c_id = c.order_id;
    bids.add_order(c);
    assert_eq!(bids.peek_best_price(), Some(bids.get_max_price()));
    assert_eq!(bids.get_max_price(), 30 * UNIT);

    bids.cancel_order_by_id(c_id).unwrap();
    assert_eq!(bids.peek_best_price(), Some(bids.get_max_price()));

    let mut asks = Book::new(TradeType::Ask);
    asks.add_order(limit_order("d", TradeType::Ask, 50 * UNIT, UNIT, 0));
    asks.add_order(limit_order("e", TradeType::Ask, 40 * UNIT, UNIT, 0));
    assert_eq!(asks.peek_best_price(), Some(asks.get_min_price()));
    assert_eq!(asks.get_min_price(), 40 * UNIT);
}

// Sorting by gas is monotone non-increasing, with ties kept in arrival
// order.
#[test]
fn test_sort_by_gas_order() {
    let mut pool = MemPool::new();
    let gases = [5 * UNIT, UNIT, 5 * UNIT, 3 * UNIT];
    let names = ["a", "b", "c", "d"];
    for k in 0..4 {
        pool.add(limit_order(names[k], TradeType::Bid, 10 * UNIT, UNIT, gases[k]));
    }
    pool.sort_by_gas();
    let drained = pool.pop_all();
    let ids: Vec<&str> = drained.iter().map(|o| o.trader_id.as_str()).collect();
    assert_eq!(ids, vec!["a", "c", "d", "b"]);
    for w in drained.windows(2) {
        assert!(w[0].gas >= w[1].gas);
    }
}

// Every transfer a cross emits has a non-negative price and volume.
#[test]
fn test_cross_updates_nonnegative() {
    let mut bids = Book::new(TradeType::Bid);
    let mut asks = Book::new(TradeType::Ask);
    asks.add_order(limit_order("s1", TradeType::Ask, 10 * UNIT, 2 * UNIT, 0));
    asks.add_order(limit_order("s2", TradeType::Ask, 12 * UNIT, 2 * UNIT, 0));
    let aggressor = limit_order("b1", TradeType::Bid, 15 * UNIT, 3 * UNIT, 0);
    let results = Auction::calc_bid_crossing(&mut bids, &mut asks, aggressor).unwrap();
    let updates = results.cross_results.unwrap();
    assert_eq!(updates.len(), 2);
    for u in &updates {
        assert!(u.price >= 0);
        assert!(u.volume >= 0);
    }
    // trades happen at the resting asks' prices
    assert_eq!(updates[0].price, 10 * UNIT);
    assert_eq!(updates[1].price, 12 * UNIT);
}

// Cash is conserved: what bidders pay equals what askers receive.
#[test]
fn test_cda_conservation() {
    let mut pool = MemPool::new();
    let mut bids_book = Book::new(TradeType::Bid);
    let mut asks_book = Book::new(TradeType::Ask);
    let mut miner = Miner::new("miner".to_string());
    let mut house = ClearingHouse::new();
    house.reg_investor(Investor::new("b1".to_string()));
    house.reg_investor(Investor::new("s1".to_string()));
    house.reg_investor(Investor::new("s2".to_string()));

    OrderProcessor::conc_recv_order(
        limit_order("b1", TradeType::Bid, 20 * UNIT, 4 * UNIT, 3 * UNIT),
        &mut pool,
    );
    OrderProcessor::conc_recv_order(
        limit_order("s1", TradeType::Ask, 10 * UNIT, 2 * UNIT, 2 * UNIT),
        &mut pool,
    );
    OrderProcessor::conc_recv_order(
        limit_order("s2", TradeType::Ask, 15 * UNIT, 2 * UNIT, UNIT),
        &mut pool,
    );
    miner.make_frame(&mut pool, BLOCK_SIZE);
    let results = miner
        .publish_frame(&mut bids_book, &mut asks_book, MarketType::CDA)
        .unwrap();
    let mut paid: i128 = 0;
    for res in &results {
        if let Some(us) = &res.cross_results {
            for u in us {
                paid += (u.price as i128) * (u.volume as i128);
            }
        }
    }
    assert!(paid > 0);
    for res in results {
        house.update_house(res);
    }
    let b1 = house.get_player("b1".to_string()).unwrap();
    let s1 = house.get_player("s1".to_string()).unwrap();
    let s2 = house.get_player("s2".to_string()).unwrap();
    assert_eq!(b1.get_bal(), -paid);
    assert_eq!(s1.get_bal() + s2.get_bal(), paid);
    assert_eq!(b1.get_inv() + s1.get_inv() + s2.get_inv(), 0);
}

// The front-run order sits at the top of the frame with no gas and
// copies the chosen order's terms.
#[test]
fn test_front_run_properties() {
    let mut miner = Miner::new("miner".to_string());
    let b = limit_order("t1", TradeType::Bid, 10 * UNIT, 2 * UNIT, UNIT);
    let a = limit_order("t2", TradeType::Ask, 90 * UNIT, 3 * UNIT, UNIT);
    let ids = [b.order_id, a.order_id];
    miner.frame.push(b);
    miner.frame.push(a);
    let order = miner.strategic_front_run(0, 120 * UNIT).unwrap();
    assert_eq!(miner.frame.len(), 3);
    assert_eq!(miner.frame[0].order_id, order.order_id);
    assert_eq!(order.gas, 0);
    assert_eq!(order.trader_id, "miner");
    // the bid promises 120 - 10 = 110 of profit against the ask's
    // 90 - 0 = 90, so the more profitable bid is duplicated
    assert_eq!(order.trade_type, TradeType::Bid);
    assert_eq!(order.price, 10 * UNIT);
    assert_eq!(order.quantity, 2 * UNIT);
    assert!(!ids.contains(&order.order_id));
}

// The history only grows; recorded entries stay as they were.
#[test]
fn test_history_monotone() {
    let mut history = History::new(MarketType::CDA);
    let o1 = limit_order("x", TradeType::Bid, 10 * UNIT, UNIT, 0);
    let o1_id = o1.order_id;
    history.mempool_order(o1);
    assert_eq!(history.mempool_data.len(), 1);
    let o2 = limit_order("y", TradeType::Ask, 20 * UNIT, UNIT, 0);
    history.mempool_order(o2);
    assert_eq!(history.mempool_data.len(), 2);
    let (orig, _t) = history.find_orig_order(o1_id).unwrap();
    assert_eq!(orig.trader_id, "x");
    assert_eq!(orig.price, 10 * UNIT);

    let before = history.order_books.len();
    history.clone_book_state(Vec::new(), TradeType::Bid, 1);
    history.clone_book_state(Vec::new(), TradeType::Ask, 1);
    assert_eq!(history.order_books.len(), before + 2);
}

// Cancelling twice equals cancelling once; the second reports the
// missing id.
#[test]
fn test_cancel_idempotent() {
    let mut book = Book::new(TradeType::Bid);
    let o = limit_order("a", TradeType::Bid, 10 * UNIT, UNIT, 0);
    let o_id = o.order_id;
    book.add_order(o);
    book.add_order(limit_order("b", TradeType::Bid, 20 * UNIT, UNIT, 0));

    assert!(book.cancel_order_by_id(o_id).is_ok());
    let len_after = book.len();
    let min_after = book.get_min_price();
    let max_after = book.get_max_price();

    assert!(book.cancel_order_by_id(o_id).is_err());
    assert_eq!(book.len(), len_after);
    assert_eq!(book.get_min_price(), min_after);
    assert_eq!(book.get_max_price(), max_after);
}

// Updating an order equals cancelling it and adding the replacement,
// in book state and best-price cache alike.
#[test]
fn test_update_equals_cancel_add() {
    let mut one = Book::new(TradeType::Bid);
    let mut two = Book::new(TradeType::Bid);
    let o = limit_order("a", TradeType::Bid, 10 * UNIT, UNIT, 0);
    let mut replacement = limit_order("a", TradeType::Bid, 30 * UNIT, 2 * UNIT, 0);
    replacement.order_id = o.order_id;
    let other = limit_order("b", TradeType::Bid, 20 * UNIT, UNIT, 0);
    one.add_order(o.clone());
    two.add_order(o.clone());
    one.add_order(other.clone());
    two.add_order(other);

    one.update_order(replacement.clone()).unwrap();
    let _ = two.cancel_order_by_id(replacement.order_id);
    two.add_order(replacement);

    assert_eq!(one.len(), two.len());
    assert_eq!(one.get_min_price(), two.get_min_price());
    assert_eq!(one.get_max_price(), two.get_max_price());
    for k in 0..one.orders.len() {
        assert_eq!(one.orders[k].order_id, two.orders[k].order_id);
        assert_eq!(one.orders[k].price, two.orders[k].price);
        assert_eq!(one.orders[k].quantity, two.orders[k].quantity);
    }
}

// Feeding the same frame through fresh miners and books yields
// identical books and transfers.
#[test]
fn test_replay_determinism() {
    let template = [
        ("b1", TradeType::Bid, 20 * UNIT, 4 * UNIT, 3 * UNIT),
        ("s1", TradeType::Ask, 10 * UNIT, 2 * UNIT, 2 * UNIT),
        ("s2", TradeType::Ask, 15 * UNIT, 5 * UNIT, UNIT),
        ("b2", TradeType::Bid, 12 * UNIT, 3 * UNIT, 4 * UNIT),
    ];
    let mut built: Vec<Order> = Vec::new();
    for (id, tt, p, q, g) in template {
        built.push(limit_order(id, tt, p, q, g));
    }

    let mut outcomes = Vec::new();
    for _run in 0..2 {
        let mut pool = MemPool::new();
        for o in built.iter() {
            pool.add(o.clone());
        }
        let mut bids = Book::new(TradeType::Bid);
        let mut asks = Book::new(TradeType::Ask);
        let mut miner = Miner::new("miner".to_string());
        miner.make_frame(&mut pool, BLOCK_SIZE);
        let results = miner.publish_frame(&mut bids, &mut asks, MarketType::CDA).unwrap();
        let mut updates = Vec::new();
        for res in results {
            if let Some(us) = res.cross_results {
                for u in us {
                    updates.push((u.payer_id, u.vol_filler_id, u.price, u.volume));
                }
            }
        }
        let bid_state: Vec<(u64, i64, i64)> =
            bids.orders.iter().map(|o| (o.order_id, o.price, o.quantity)).collect();
        let ask_state: Vec<(u64, i64, i64)> =
            asks.orders.iter().map(|o| (o.order_id, o.price, o.quantity)).collect();
        outcomes.push((updates, bid_state, ask_state, bids.max_price, asks.min_price));
    }
    assert_eq!(outcomes[0], outcomes[1]);
}

// A fresh empty book carries the sentinels: best bid 0, best ask
// effectively infinite.
#[test]
fn test_empty_book_sentinels() {
    let bids = Book::new(TradeType::Bid);
    assert_eq!(bids.get_max_price(), 0);
    let asks = Book::new(TradeType::Ask);
    assert_eq!(asks.get_min_price(), PRICE_INF);
}

// A batch auction with only bids returns no clearing price and no
// transfers, and touches nothing.
#[test]
fn test_fba_one_side_bids_only() {
    let mut bids = Book::new(TradeType::Bid);
    let mut asks = Book::new(TradeType::Ask);
    bids.add_order(limit_order("b1", TradeType::Bid, 10 * UNIT, UNIT, 0));
    bids.add_order(limit_order("b2", TradeType::Bid, 12 * UNIT, UNIT, 0));
    let results = Auction::frequent_batch_auction(&mut bids, &mut asks).unwrap();
    assert!(results.uniform_price.is_none());
    assert!(results.cross_results.is_none());
    assert_eq!(bids.len(), 2);
    assert_eq!(asks.len(), 0);
}

// With bids strictly below asks the flow search converges to a price
// that clears nothing.
#[test]
fn test_klf_gap_no_transfers() {
    let mut bids = Book::new(TradeType::Bid);
    let mut asks = Book::new(TradeType::Ask);
    bids.add_order(flow_order("b1", TradeType::Bid, 10 * UNIT, 20 * UNIT, 5 * UNIT));
    bids.add_order(flow_order("b2", TradeType::Bid, 12 * UNIT, 18 * UNIT, 5 * UNIT));
    asks.add_order(flow_order("s1", TradeType::Ask, 80 * UNIT, 90 * UNIT, 5 * UNIT));
    asks.add_order(flow_order("s2", TradeType::Ask, 82 * UNIT, 88 * UNIT, 5 * UNIT));
    let results = Auction::bs_cross(&mut bids, &mut asks).unwrap();
    let p = results.uniform_price.unwrap();
    assert!(20 * UNIT < p && p < 80 * UNIT);
    assert_eq!(results.agg_demand, 0);
    assert_eq!(results.agg_supply, 0);
    assert_eq!(results.cross_results.unwrap().len(), 0);
    assert_eq!(bids.len(), 2);
    assert_eq!(asks.len(), 2);
}

// A live bracket always yields a reported price, even when supply
// dwarfs demand at every midpoint and the bisection stalls to its cap.
#[test]
fn test_klf_search_reports_price() {
    let mut bids = Book::new(TradeType::Bid);
    let mut asks = Book::new(TradeType::Ask);
    bids.add_order(flow_order("b1", TradeType::Bid, 1 * UNIT, 3 * UNIT, 2 * UNIT));
    asks.add_order(flow_order("s1", TradeType::Ask, 1 * UNIT, 3 * UNIT, 500 * UNIT));
    asks.add_order(flow_order("s2", TradeType::Ask, 1 * UNIT, 3 * UNIT, 500 * UNIT));
    let results = Auction::bs_cross(&mut bids, &mut asks).unwrap();
    let price = results.uniform_price.unwrap();
    assert!(1 * UNIT <= price && price <= 3 * UNIT);
}

// A market ask sweeps exactly ten five-share bids; a far ask rests.
#[test]
fn test_cda_chained_ask_sweep() {
    let mut rng = rand::thread_rng();
    let n: i64 = rng.gen_range(11..=1000);
    let mut pool = MemPool::new();
    for i in 1..=n {
        pool.add(limit_order(&format!("INV{}", i), TradeType::Bid, i * UNIT, 5 * UNIT, 500_000));
    }
    pool.add(limit_order("mkt", TradeType::Ask, 0, 50 * UNIT, 500_000));
    pool.add(limit_order("high", TradeType::Ask, 1000 * n * UNIT, 50 * UNIT, 500_000));

    let mut bids = Book::new(TradeType::Bid);
    let mut asks = Book::new(TradeType::Ask);
    let mut miner = Miner::new("miner".to_string());
    miner.make_frame(&mut pool, BLOCK_SIZE);
    let _ = miner.publish_frame(&mut bids, &mut asks, MarketType::CDA);

    assert_eq!(bids.len(), (n - 10) as usize);
    assert_eq!(asks.len(), 1);
    assert_eq!(asks.get_min_price(), 1000 * n * UNIT);
}

// Gas fees leave each trader and the total credits the miner; the gas
// ledger gains the total.  Balances carry price-times-quantity scale,
// so each fixed-point gas fee debits gas times one unit.
#[test]
fn test_gas_fees_and_miner_credit() {
    let mut miner = Miner::new("miner".to_string());
    let mut house = ClearingHouse::new();
    house.reg_miner(Miner::new("miner".to_string()));
    let mut total: i128 = 0;
    for k in 0..10i64 {
        let gas = (k + 1) * UNIT;
        total += (gas as i128) * (UNIT as i128);
        let id = format!("T{}", k);
        house.reg_investor(Investor::new(id.clone()));
        miner.frame.push(limit_order(&id, TradeType::Bid, 10 * UNIT, UNIT, gas));
    }
    let (to_change, collected) = miner.collect_gas();
    assert_eq!(collected, total);
    house.apply_gas_fees(to_change, collected);
    assert_eq!(*house.gas_fees.last().unwrap(), total);
    for k in 0..10i64 {
        let p = house.get_player(format!("T{}", k)).unwrap();
        assert_eq!(p.get_bal(), -(((k + 1) * UNIT) as i128) * (UNIT as i128));
    }
    let m = house.get_player("miner".to_string()).unwrap();
    assert_eq!(m.get_bal(), total);
}

// The maker inventory tax subtracts the configured fraction of the
// inventory's magnitude.
#[test]
fn test_maker_tax() {
    let mut house = ClearingHouse::new();
    let mut mkr = Maker::new("m1".to_string(), MakerT::RiskAverse);
    mkr.update_inv(-(4 * UNIT) as i128);
    mkr.update_bal(1_000_000_000_000i128);
    house.reg_maker(mkr);
    house.reg_investor(Investor::new("i1".to_string()));
    // a tax rate of 0.25 on four shares short costs one unit of cash
    house.tax_makers(250_000);
    let m = house.get_player("m1".to_string()).unwrap();
    assert_eq!(m.get_bal(), 1_000_000_000_000i128 - (4 * UNIT) as i128 * 250_000);
    let i = house.get_player("i1".to_string()).unwrap();
    assert_eq!(i.get_bal(), 0);
}

// Liquidation closes every inventory at the fundamental value.
#[test]
fn test_liquify() {
    let mut house = ClearingHouse::new();
    let mut inv = Investor::new("i1".to_string());
    inv.update_inv((3 * UNIT) as i128);
    house.reg_investor(inv);
    house.liquify(7 * UNIT);
    let p = house.get_player("i1".to_string()).unwrap();
    assert_eq!(p.get_inv(), 0);
    assert_eq!(p.get_bal(), (3 * UNIT) as i128 * (7 * UNIT) as i128);
}

// Missing ids are reported, not silently accepted.
#[test]
fn test_error_variants() {
    let mut book = Book::new(TradeType::Bid);
    assert!(book.cancel_order_by_id(42).is_err());

    let mut pool = MemPool::new();
    assert!(pool.pop().is_none());

    let mut house = ClearingHouse::new();
    assert!(house.new_order(limit_order("ghostly", TradeType::Bid, UNIT, UNIT, 0)).is_err());
    assert!(house.update_player_bal("nobody".to_string(), 1).is_none());
    assert!(house.cancel_player_order("nobody".to_string(), 7).is_err());

    let mut miner = Miner::new("miner".to_string());
    assert!(miner.strategic_front_run(0, UNIT).is_err());
}

// An investor's flow order brackets the sampled price by the offset.
#[test]
fn test_investor_order_brackets() {
    let o = investor_order(
        "inv".to_string(),
        TradeType::Ask,
        50 * UNIT,
        2 * UNIT,
        UNIT,
        MarketType::KLF,
        3 * UNIT,
    );
    assert_eq!(o.ex_type, ExchangeType::FlowOrder);
    assert_eq!(o.p_low, 50 * UNIT);
    assert_eq!(o.p_high, 53 * UNIT);

    let o = investor_order(
        "inv".to_string(),
        TradeType::Bid,
        50 * UNIT,
        2 * UNIT,
        UNIT,
        MarketType::KLF,
        3 * UNIT,
    );
    assert_eq!(o.p_low, 47 * UNIT);
    assert_eq!(o.p_high, 50 * UNIT);

    let o = investor_order(
        "inv".to_string(),
        TradeType::Bid,
        50 * UNIT,
        2 * UNIT,
        UNIT,
        MarketType::CDA,
        3 * UNIT,
    );
    assert_eq!(o.ex_type, ExchangeType::LimitOrder);
    assert_eq!(o.p_low, 50 * UNIT);
    assert_eq!(o.p_high, 50 * UNIT);
}

// A maker with no inventory centres its quote; the orders carry the
// quoted prices and sizes.
#[test]
fn test_maker_quote_centred() {
    let consts = Constants::new(
        100,
        10,
        10,
        100,
        50,
        MarketType::CDA,
        100_000,
        UNIT,
        10,
        2 * UNIT,
        500_000,
        100 * UNIT,
        10_000,
    );
    let maker = Maker::new("m1".to_string(), MakerT::Aggressive);
    let data = PriorData {
        clearing_price: None,
        best_bid: None,
        best_ask: None,
        current_bids: Vec::new(),
        current_asks: Vec::new(),
        current_wtd_price: None,
        mean_pool_gas: UNIT,
        asks_volume: 0,
        bids_volume: 0,
        current_pool: Vec::new(),
    };
    let inference = LikelihoodStats {
        mean_bids: Some(100 * UNIT),
        mean_asks: Some(100 * UNIT),
        num_bids: 1,
        num_asks: 1,
        weighted_price: Some(100 * UNIT),
    };
    let (bid, ask) = maker.new_orders(&data, &inference, 0, UNIT, &consts).unwrap();
    // aggressive spread is the base spread of 2: quote at 99 and 101
    assert_eq!(bid.price, 99 * UNIT);
    assert_eq!(ask.price, 101 * UNIT);
    assert_eq!(bid.quantity, 500_000);
    assert_eq!(ask.quantity, 500_000);
    assert_eq!(bid.gas, 2 * UNIT);
    assert_eq!(ask.gas, bid.gas);

    let none = LikelihoodStats {
        mean_bids: None,
        mean_asks: None,
        num_bids: 0,
        num_asks: 0,
        weighted_price: None,
    };
    assert!(maker.new_orders(&data, &none, 0, UNIT, &consts).is_none());
}

// The pool-wide statistics come out exactly: means are per side and
// the weighted price weighs them by their counts.
#[test]
fn test_history_statistics() {
    let mut history = History::new(MarketType::CDA);
    history.mempool_order(limit_order("a", TradeType::Bid, 10 * UNIT, UNIT, 0));
    history.mempool_order(limit_order("b", TradeType::Bid, 20 * UNIT, UNIT, 0));
    history.mempool_order(limit_order("c", TradeType::Ask, 30 * UNIT, UNIT, 0));
    let stats = history.inference_data();
    assert_eq!(stats.mean_bids, Some(15 * UNIT));
    assert_eq!(stats.mean_asks, Some(30 * UNIT));
    assert_eq!(stats.num_bids, 2);
    assert_eq!(stats.num_asks, 1);
    assert_eq!(stats.weighted_price, Some(20 * UNIT));

    let pool = vec![
        limit_order("d", TradeType::Bid, UNIT, UNIT, 2 * UNIT),
        limit_order("e", TradeType::Ask, UNIT, UNIT, 4 * UNIT),
    ];
    assert_eq!(History::get_mean_gas(&pool), 3 * UNIT);
}
