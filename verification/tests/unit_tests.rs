use flow_rs::auction::Auction;
use flow_rs::book::{Book, PRICE_INF};
use flow_rs::exchange::MarketType;
use flow_rs::history::UpdateReason;
use flow_rs::investor::Investor;
use flow_rs::maker::{Maker, MakerT};
use flow_rs::miner::Miner;
use flow_rs::clearing_house::ClearingHouse;
use flow_rs::order::{ExchangeType, Order, OrderType, TradeType};
use flow_rs::simulation::{DistReason, DistType, Distributions};

// One currency unit or share in fixed-point scale.
const UNIT: i64 = 1_000_000;

#[test]
fn test_new_limit_order() {
    let order = Order::new(
        String::from("trader_id"),
        OrderType::Enter,
        TradeType::Bid,
        ExchangeType::LimitOrder,
        0,
        0,
        50 * UNIT,
        500 * UNIT,
        50_000,
    );

    assert_eq!(order.trader_id, "trader_id");
    assert_eq!(order.order_type, OrderType::Enter);
    assert_eq!(order.trade_type, TradeType::Bid);
    assert_eq!(order.ex_type, ExchangeType::LimitOrder);
    assert_eq!(order.price, 50 * UNIT);
    assert_eq!(order.quantity, 500 * UNIT);
    assert_eq!(order.gas, 50_000);
}

#[test]
fn test_new_flow_order() {
    let order = Order::new(
        String::from("trader_id"),
        OrderType::Enter,
        TradeType::Bid,
        ExchangeType::FlowOrder,
        99 * UNIT,
        101 * UNIT,
        50 * UNIT,
        500 * UNIT,
        50_000,
    );

    assert_eq!(order.trader_id, "trader_id");
    assert_eq!(order.order_type, OrderType::Enter);
    assert_eq!(order.trade_type, TradeType::Bid);
    assert_eq!(order.ex_type, ExchangeType::FlowOrder);
    assert_eq!(order.p_low, 99 * UNIT);
    assert_eq!(order.p_high, 101 * UNIT);
    assert_eq!(order.quantity, 500 * UNIT);
    assert_eq!(order.gas, 50_000);
}

#[test]
fn test_flow_calc_supply() {
    let order = Order::new(
        String::from("trader_id"),
        OrderType::Enter,
        TradeType::Ask,
        ExchangeType::FlowOrder,
        72 * UNIT,
        100 * UNIT,
        50 * UNIT,
        500 * UNIT,
        50_000,
    );

    assert_eq!(order.trader_id, "trader_id");
    assert_eq!(order.order_type, OrderType::Enter);
    assert_eq!(order.trade_type, TradeType::Ask);
    assert_eq!(order.ex_type, ExchangeType::FlowOrder);
    assert_eq!(order.p_low, 72 * UNIT);
    assert_eq!(order.p_high, 100 * UNIT);
    assert_eq!(order.quantity, 500 * UNIT);
    assert_eq!(order.gas, 50_000);
    // 81.090481 is the nearest representable price to the queried one;
    // the supply there is 500 * (81.090481 - 72) / 28, rounded down to
    // a whole unit.
    assert_eq!(order.calc_flow_supply(81_090_481), 162_330_018);
}

#[test]
fn test_float_helpers() {
    let a = 2 * UNIT;
    let b = 10 * UNIT;

    assert!(!Auction::greater_than_e(&a, &b));
    assert!(Auction::less_than_e(&a, &b));
    assert!(Auction::equal_e(&(1_100_000 + 400_000), &1_500_000));
}

#[test]
fn test_new_book() {
    let book = Book::new(TradeType::Bid);
    assert_eq!(book.book_type, TradeType::Bid);
    assert_eq!(book.min_price, PRICE_INF);
    assert_eq!(book.max_price, 0);
}

#[test]
fn test_new_investor() {
    let mut i = Investor::new(format!("{:?}", "BillyBob"));
    i.update_bal(55 * UNIT as i128);
    i.update_inv(100 * UNIT as i128);

    assert_eq!(i.get_bal(), 55 * UNIT as i128);
    assert_eq!(i.get_inv(), 100 * UNIT as i128);
}

#[test]
fn test_new_maker() {
    let mut m = Maker::new(format!("{:?}", "BillyBob"), Maker::gen_rand_type());
    m.update_bal(55 * UNIT as i128);
    m.update_inv(100 * UNIT as i128);

    assert_eq!(m.get_bal(), 55 * UNIT as i128);
    assert_eq!(m.get_inv(), 100 * UNIT as i128);
}

#[test]
fn test_ch() {
    let mut i = Investor::new(format!("{:?}", "BillyBob"));
    i.update_bal(55 * UNIT as i128);
    i.update_inv(100 * UNIT as i128);

    let mut mkr = Maker::new(format!("{:?}", "NillyNob"), MakerT::Aggressive);
    mkr.update_bal(55 * UNIT as i128);
    mkr.update_inv(100 * UNIT as i128);

    let min = Miner::new(format!("{:?}", "SquillyFob"));

    let mut ch = ClearingHouse::new();

    // Test adding new players
    ch.reg_investor(i);
    ch.reg_maker(mkr);
    ch.reg_miner(min);
    assert_eq!(ch.num_players(), 3);

    // Test updating a player's balance
    if let Some(bal) = ch.update_player_bal(format!("{:?}", "BillyBob"), 40 * UNIT as i128) {
        assert_eq!(bal, 95 * UNIT as i128);
    } else {
        panic!("AHHH failed to update player balance");
    }

    // Test updating a player's inventory
    if let Some(inv) = ch.update_player_inv(format!("{:?}", "NillyNob"), -40 * UNIT as i128) {
        assert_eq!(inv, 60 * UNIT as i128);
    } else {
        panic!("AHHH failed to update player inventory");
    }

    // Test updating both
    if let Some((bal, inv)) = ch.update_player(
        format!("{:?}", "SquillyFob"),
        -40 * UNIT as i128,
        20 * UNIT as i128,
        UpdateReason::Transact,
    ) {
        assert_eq!(inv, 20 * UNIT as i128);
        assert_eq!(bal, -40 * UNIT as i128);
    } else {
        panic!("AHHH failed to update player");
    }

    if let Some(_) = ch.del_player(format!("{:?}", "SquillyFob")) {
        assert_eq!(ch.num_players(), 2);
    } else {
        panic!("AHHH failed to delete player");
    }
}

#[test]
fn test_index_by_enum() {
    let a = vec![5, 6, 7];
    assert_eq!(&5, a.get(DistReason::AsksCenter as usize).unwrap());
    assert_eq!(&6, a.get(DistReason::BidsCenter as usize).unwrap());
    assert_eq!(&7, a.get(DistReason::MinerFrontRun as usize).unwrap());
}

#[test]
fn test_config() {
    let v = vec![
        (DistReason::AsksCenter, 110 * UNIT, 20 * UNIT, UNIT, DistType::Normal),
        (DistReason::BidsCenter, 90 * UNIT, 20 * UNIT, UNIT, DistType::Normal),
        (DistReason::MinerFrontRun, 0, UNIT, UNIT, DistType::Uniform),
        (DistReason::MinerFrameForm, 50 * UNIT, 20 * UNIT, UNIT, DistType::Normal),
        (DistReason::PropagationDelay, 20 * UNIT, 5 * UNIT, UNIT, DistType::Normal),
        (DistReason::InvestorGas, 0, UNIT, UNIT, DistType::Uniform),
        (DistReason::InvestorEnter, 50 * UNIT, 50 * UNIT, UNIT, DistType::Poisson),
        (DistReason::MakerType, 0, 4 * UNIT, UNIT, DistType::Uniform),
        (DistReason::MakerInventory, 0, 100 * UNIT, UNIT, DistType::Uniform),
        (DistReason::MakerBalance, 50 * UNIT, 100 * UNIT, UNIT, DistType::Uniform),
    ];

    let d = Distributions::new(v);

    let d_conf = d.dists.get(DistReason::AsksCenter as usize).unwrap();
    assert_eq!(d_conf.0, 110 * UNIT);
    assert_eq!(d_conf.1, 20 * UNIT);
    assert_eq!(d_conf.2, UNIT);
    assert_eq!(d_conf.3, DistType::Normal);

    let d_conf = d.dists.get(DistReason::BidsCenter as usize).unwrap();
    assert_eq!(d_conf.0, 90 * UNIT);
    assert_eq!(d_conf.1, 20 * UNIT);
    assert_eq!(d_conf.2, UNIT);
    assert_eq!(d_conf.3, DistType::Normal);

    let d_conf = d.dists.get(DistReason::MinerFrontRun as usize).unwrap();
    assert_eq!(d_conf.0, 0);
    assert_eq!(d_conf.1, UNIT);
    assert_eq!(d_conf.2, UNIT);
    assert_eq!(d_conf.3, DistType::Uniform);

    let d_conf = d.dists.get(DistReason::MinerFrameForm as usize).unwrap();
    assert_eq!(d_conf.0, 50 * UNIT);
    assert_eq!(d_conf.1, 20 * UNIT);
    assert_eq!(d_conf.2, UNIT);
    assert_eq!(d_conf.3, DistType::Normal);

    let d_conf = d.dists.get(DistReason::PropagationDelay as usize).unwrap();
    assert_eq!(d_conf.0, 20 * UNIT);
    assert_eq!(d_conf.1, 5 * UNIT);
    assert_eq!(d_conf.2, UNIT);
    assert_eq!(d_conf.3, DistType::Normal);

    let d_conf = d.dists.get(DistReason::InvestorGas as usize).unwrap();
    assert_eq!(d_conf.0, 0);
    assert_eq!(d_conf.1, UNIT);
    assert_eq!(d_conf.2, UNIT);
    assert_eq!(d_conf.3, DistType::Uniform);

    let d_conf = d.dists.get(DistReason::InvestorEnter as usize).unwrap();
    assert_eq!(d_conf.0, 50 * UNIT);
    assert_eq!(d_conf.1, 50 * UNIT);
    assert_eq!(d_conf.2, UNIT);
    assert_eq!(d_conf.3, DistType::Poisson);

    let d_conf = d.dists.get(DistReason::MakerType as usize).unwrap();
    assert_eq!(d_conf.0, 0);
    assert_eq!(d_conf.1, 4 * UNIT);
    assert_eq!(d_conf.2, UNIT);
    assert_eq!(d_conf.3, DistType::Uniform);

    let d_conf = d.dists.get(DistReason::MakerInventory as usize).unwrap();
    assert_eq!(d_conf.0, 0);
    assert_eq!(d_conf.1, 100 * UNIT);
    assert_eq!(d_conf.2, UNIT);
    assert_eq!(d_conf.3, DistType::Uniform);

    let d_conf = d.dists.get(DistReason::MakerBalance as usize).unwrap();
    assert_eq!(d_conf.0, 50 * UNIT);
    assert_eq!(d_conf.1, 100 * UNIT);
    assert_eq!(d_conf.2, UNIT);
    assert_eq!(d_conf.3, DistType::Uniform);
}
