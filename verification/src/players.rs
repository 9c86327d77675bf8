//! The players of the simulation: investors, makers and the miner,
//! unified in a sum type the clearing house stores.  Balances and
//! inventories are signed 128-bit values updated with clamping
//! arithmetic, so every ledger operation is total and its result
//! exactly stated.  One convention holds throughout: an inventory is
//! in quantity units (10^-6 of a share) and a balance is in price
//! units times quantity units (10^-12 of a currency unit), the scale
//! of a `price * volume` payment; gas debits, the maker tax and
//! liquidation proceeds all enter balances at that same scale.

use crate::investor::Investor;
use crate::maker::Maker;
use crate::miner::Miner;
use crate::order::{Order, OrderType};
use vstd::prelude::*;

verus! {

/// The kinds of trader.
#[derive(Debug, PartialEq, Eq, Clone, Copy, Structural)]
pub enum TraderT {
    Maker,
    Investor,
    Miner,
}

/// The value `x` clamped into the i128 range.
pub open spec fn clamp_i128(x: int) -> int {
    if x > i128::MAX {
        i128::MAX as int
    } else if x < i128::MIN {
        i128::MIN as int
    } else {
        x
    }
}

/// Adds two ledger values, clamping at the representation bounds.
pub fn add_clamped(a: i128, b: i128) -> (r: i128)
    ensures
        r as int == clamp_i128(a + b),
{
    match a.checked_add(b) {
        Some(v) => v,
        None => if b > 0 {
            i128::MAX
        } else {
            i128::MIN
        },
    }
}

/// The first index of an order carrying `id` in a player's list.
pub fn orders_position(orders: &Vec<Order>, o_id: u64) -> (r: Option<usize>)
    ensures
        match r {
            Some(ix) => crate::book::find_id(orders@, o_id) == ix && ix < orders@.len(),
            None => crate::book::find_id(orders@, o_id) == -1,
        },
{
    proof {
        crate::book::lemma_find_id_range(orders@, o_id, 0);
    }
    let mut i: usize = 0;
    while i < orders.len()
        invariant
            0 <= i <= orders.len(),
            crate::book::find_id(orders@, o_id) == crate::book::find_id_from(
                orders@,
                o_id,
                i as int,
            ),
        decreases orders.len() - i,
    {
        if orders[i].order_id == o_id {
            return Some(i);
        }
        i = i + 1;
    }
    None
}

/// Removes the first order carrying `id` from a player's list;
/// reports an error when the id is absent.
pub fn orders_cancel(orders: &mut Vec<Order>, o_id: u64) -> (r: Result<(), &'static str>)
    ensures
        crate::book::find_id(old(orders)@, o_id) == -1 ==> r is Err && final(orders)@ == old(
            orders,
        )@,
        crate::book::find_id(old(orders)@, o_id) >= 0 ==> r is Ok && final(orders)@ == old(
            orders,
        )@.remove(crate::book::find_id(old(orders)@, o_id)),
{
    match orders_position(orders, o_id) {
        Some(ix) => {
            orders.remove(ix);
            Ok(())
        },
        None => Err("ERROR: order not found to cancel"),
    }
}

/// A copy of a player's order list.
pub fn copy_orders_vec(orders: &Vec<Order>) -> (r: Vec<Order>)
    ensures
        r@ == orders@,
{
    let mut out: Vec<Order> = Vec::new();
    let mut i: usize = 0;
    while i < orders.len()
        invariant
            0 <= i <= orders.len(),
            out@ == orders@.take(i as int),
        decreases orders.len() - i,
    {
        out.push(orders[i].clone());
        proof {
            assert(out@ =~= orders@.take(i + 1));
        }
        i = i + 1;
    }
    proof {
        assert(orders@.take(orders@.len() as int) =~= orders@);
    }
    out
}

/// The ids of the entering orders in a list, in list order.
pub open spec fn enter_ids(s: Seq<Order>) -> Seq<u64>
    decreases s.len(),
{
    if s.len() == 0 {
        Seq::empty()
    } else {
        enter_ids(s.drop_last()) + if s.last().order_type == OrderType::Enter {
            seq![s.last().order_id]
        } else {
            Seq::empty()
        }
    }
}

/// Collects the ids of the entering orders in a list.
pub fn collect_enter_ids(orders: &Vec<Order>) -> (r: Vec<u64>)
    ensures
        r@ == enter_ids(orders@),
{
    let mut ids: Vec<u64> = Vec::new();
    let mut i: usize = 0;
    proof {
        assert(ids@ =~= enter_ids(orders@.take(0)));
    }
    while i < orders.len()
        invariant
            0 <= i <= orders.len(),
            ids@ == enter_ids(orders@.take(i as int)),
        decreases orders.len() - i,
    {
        proof {
            assert(orders@.take(i + 1).drop_last() =~= orders@.take(i as int));
            assert(orders@.take(i + 1).last() == orders@[i as int]);
        }
        if orders[i].order_type == OrderType::Enter {
            ids.push(orders[i].order_id);
            proof {
                assert(ids@ =~= enter_ids(orders@.take(i + 1)));
            }
        } else {
            proof {
                assert(ids@ =~= enter_ids(orders@.take(i + 1)));
            }
        }
        i = i + 1;
    }
    proof {
        assert(orders@.take(orders@.len() as int) =~= orders@);
    }
    ids
}

/// A cancel order copied from the resting order with the given id.
pub fn gen_cancel_from(orders: &Vec<Order>, o_id: u64) -> (r: Result<Order, &'static str>)
    ensures
        crate::book::find_id(orders@, o_id) == -1 ==> r is Err,
        crate::book::find_id(orders@, o_id) >= 0 ==> match r {
            Ok(o) => o == (Order {
                order_type: OrderType::Cancel,
                ..orders@[crate::book::find_id(orders@, o_id)]
            }),
            Err(_) => false,
        },
{
    match orders_position(orders, o_id) {
        Some(ix) => {
            let mut copied = orders[ix].clone();
            copied.order_type = OrderType::Cancel;
            Ok(copied)
        },
        None => Err("ERROR: order not found to cancel"),
    }
}

/// A common capability set over investors, makers and the miner: the
/// clearing house stores every registered player in this sum type and
/// dispatches on it.
pub enum Player {
    Investor(Investor),
    Maker(Maker),
    Miner(Miner),
}

/// The variant a player record carries.
pub open spec fn variant_of(p: Player) -> TraderT {
    match p {
        Player::Investor(_) => TraderT::Investor,
        Player::Maker(_) => TraderT::Maker,
        Player::Miner(_) => TraderT::Miner,
    }
}

/// The player's trader id, as a character sequence.
pub open spec fn id_of(p: Player) -> Seq<char> {
    match p {
        Player::Investor(x) => x.trader_id@,
        Player::Maker(x) => x.trader_id@,
        Player::Miner(x) => x.trader_id@,
    }
}

/// The player's balance.
pub open spec fn balance_of(p: Player) -> i128 {
    match p {
        Player::Investor(x) => x.balance,
        Player::Maker(x) => x.balance,
        Player::Miner(x) => x.balance,
    }
}

/// The player's inventory.
pub open spec fn inventory_of(p: Player) -> i128 {
    match p {
        Player::Investor(x) => x.inventory,
        Player::Maker(x) => x.inventory,
        Player::Miner(x) => x.inventory,
    }
}

/// The player's open-order ledger.
pub open spec fn orders_of(p: Player) -> Seq<Order> {
    match p {
        Player::Investor(x) => x.orders@,
        Player::Maker(x) => x.orders@,
        Player::Miner(x) => x.orders@,
    }
}

/// The log of orders the player has sent to the mempool; makers keep
/// no such log.
pub open spec fn sent_of(p: Player) -> Seq<(u64, OrderType)> {
    match p {
        Player::Investor(x) => x.sent_orders@,
        Player::Maker(_) => Seq::empty(),
        Player::Miner(x) => x.sent_orders@,
    }
}

/// The declared player type field.
pub open spec fn type_of(p: Player) -> TraderT {
    match p {
        Player::Investor(x) => x.player_type,
        Player::Maker(x) => x.player_type,
        Player::Miner(x) => x.player_type,
    }
}

/// The player with its balance replaced.
pub open spec fn with_balance(p: Player, b: i128) -> Player {
    match p {
        Player::Investor(x) => Player::Investor(Investor { balance: b, ..x }),
        Player::Maker(x) => Player::Maker(Maker { balance: b, ..x }),
        Player::Miner(x) => Player::Miner(Miner { balance: b, ..x }),
    }
}

/// The player with its inventory replaced.
pub open spec fn with_inventory(p: Player, v: i128) -> Player {
    match p {
        Player::Investor(x) => Player::Investor(Investor { inventory: v, ..x }),
        Player::Maker(x) => Player::Maker(Maker { inventory: v, ..x }),
        Player::Miner(x) => Player::Miner(Miner { inventory: v, ..x }),
    }
}

impl Player {
    /// The player's trader id.
    pub fn get_id(&self) -> (r: String)
        ensures
            r@ == id_of(*self),
    {
        match self {
            Player::Investor(x) => x.trader_id.clone(),
            Player::Maker(x) => x.trader_id.clone(),
            Player::Miner(x) => x.trader_id.clone(),
        }
    }

    /// The player's balance.
    pub fn get_bal(&self) -> (r: i128)
        ensures
            r == balance_of(*self),
    {
        match self {
            Player::Investor(x) => x.balance,
            Player::Maker(x) => x.balance,
            Player::Miner(x) => x.balance,
        }
    }

    /// The player's inventory.
    pub fn get_inv(&self) -> (r: i128)
        ensures
            r == inventory_of(*self),
    {
        match self {
            Player::Investor(x) => x.inventory,
            Player::Maker(x) => x.inventory,
            Player::Miner(x) => x.inventory,
        }
    }

    /// The player's declared type.
    pub fn get_player_type(&self) -> (r: TraderT)
        ensures
            r == type_of(*self),
    {
        match self {
            Player::Investor(x) => x.player_type,
            Player::Maker(x) => x.player_type,
            Player::Miner(x) => x.player_type,
        }
    }

    /// Adds to the balance, clamping at the representation bounds;
    /// everything else is untouched.
    pub fn update_bal(&mut self, to_add: i128)
        ensures
            *final(self) == with_balance(
                *old(self),
                clamp_i128(balance_of(*old(self)) + to_add) as i128,
            ),
    {
        match self {
            Player::Investor(x) => {
                x.balance = add_clamped(x.balance, to_add);
            },
            Player::Maker(x) => {
                x.balance = add_clamped(x.balance, to_add);
            },
            Player::Miner(x) => {
                x.balance = add_clamped(x.balance, to_add);
            },
        }
    }

    /// Adds to the inventory, clamping at the representation bounds;
    /// everything else is untouched.
    pub fn update_inv(&mut self, to_add: i128)
        ensures
            *final(self) == with_inventory(
                *old(self),
                clamp_i128(inventory_of(*old(self)) + to_add) as i128,
            ),
    {
        match self {
            Player::Investor(x) => {
                x.inventory = add_clamped(x.inventory, to_add);
            },
            Player::Maker(x) => {
                x.inventory = add_clamped(x.inventory, to_add);
            },
            Player::Miner(x) => {
                x.inventory = add_clamped(x.inventory, to_add);
            },
        }
    }

    /// Records a new open order on the player's ledger.
    pub fn add_order(&mut self, order: Order)
        ensures
            orders_of(*final(self)) == orders_of(*old(self)).push(order),
            variant_of(*final(self)) == variant_of(*old(self)),
            id_of(*final(self)) == id_of(*old(self)),
            balance_of(*final(self)) == balance_of(*old(self)),
            inventory_of(*final(self)) == inventory_of(*old(self)),
            type_of(*final(self)) == type_of(*old(self)),
    {
        match self {
            Player::Investor(x) => {
                x.sent_orders.push((order.order_id, order.order_type));
                x.orders.push(order);
            },
            Player::Maker(x) => {
                x.orders.push(order);
            },
            Player::Miner(x) => {
                x.sent_orders.push((order.order_id, order.order_type));
                x.orders.push(order);
            },
        }
    }

    /// The number of open orders on the ledger.
    pub fn num_orders(&self) -> (r: usize)
        ensures
            r == orders_of(*self).len(),
    {
        match self {
            Player::Investor(x) => x.orders.len(),
            Player::Maker(x) => x.orders.len(),
            Player::Miner(x) => x.orders.len(),
        }
    }

    /// Removes the open order with the given id; reports an error
    /// when the id is absent.
    pub fn cancel_order(&mut self, o_id: u64) -> (r: Result<(), &'static str>)
        ensures
            crate::book::find_id(orders_of(*old(self)), o_id) == -1 ==> r is Err && orders_of(
                *final(self),
            ) == orders_of(*old(self)),
            crate::book::find_id(orders_of(*old(self)), o_id) >= 0 ==> r is Ok && orders_of(
                *final(self),
            ) == orders_of(*old(self)).remove(
                crate::book::find_id(orders_of(*old(self)), o_id),
            ),
            variant_of(*final(self)) == variant_of(*old(self)),
            id_of(*final(self)) == id_of(*old(self)),
            balance_of(*final(self)) == balance_of(*old(self)),
            inventory_of(*final(self)) == inventory_of(*old(self)),
            type_of(*final(self)) == type_of(*old(self)),
    {
        match self {
            Player::Investor(x) => orders_cancel(&mut x.orders, o_id),
            Player::Maker(x) => orders_cancel(&mut x.orders, o_id),
            Player::Miner(x) => orders_cancel(&mut x.orders, o_id),
        }
    }

    /// Adds volume to the open order with the given id.  An investor's
    /// or miner's order is dropped from the ledger when its remaining
    /// volume reaches zero; a maker's is kept.
    pub fn update_order_vol(&mut self, o_id: u64, vol_to_add: i64) -> (r: Result<
        (),
        &'static str,
    >)
        requires
            -crate::order::MAX_QTY_UNITS <= vol_to_add <= crate::order::MAX_QTY_UNITS,
            crate::book::find_id(orders_of(*old(self)), o_id) >= 0 ==> i64::MIN <= orders_of(
                *old(self),
            )[crate::book::find_id(orders_of(*old(self)), o_id)].quantity + vol_to_add
                <= i64::MAX,
        ensures
            crate::book::find_id(orders_of(*old(self)), o_id) == -1 ==> r is Err && orders_of(
                *final(self),
            ) == orders_of(*old(self)),
            crate::book::find_id(orders_of(*old(self)), o_id) >= 0 ==> r is Ok && ({
                let ix = crate::book::find_id(orders_of(*old(self)), o_id);
                let o = orders_of(*old(self))[ix];
                let o2 = Order { quantity: (o.quantity + vol_to_add) as i64, ..o };
                if o.quantity + vol_to_add <= 0 && variant_of(*old(self)) != TraderT::Maker {
                    orders_of(*final(self)) == orders_of(*old(self)).remove(ix)
                } else {
                    orders_of(*final(self)) == orders_of(*old(self)).update(ix, o2)
                }
            }),
            variant_of(*final(self)) == variant_of(*old(self)),
            id_of(*final(self)) == id_of(*old(self)),
            balance_of(*final(self)) == balance_of(*old(self)),
            inventory_of(*final(self)) == inventory_of(*old(self)),
            type_of(*final(self)) == type_of(*old(self)),
    {
        match self {
            Player::Investor(x) => Player::vol_update(&mut x.orders, o_id, vol_to_add, true),
            Player::Maker(x) => Player::vol_update(&mut x.orders, o_id, vol_to_add, false),
            Player::Miner(x) => Player::vol_update(&mut x.orders, o_id, vol_to_add, true),
        }
    }

    /// The shared volume-update step: find, adjust, and drop when
    /// asked to and the order is exhausted.
    fn vol_update(orders: &mut Vec<Order>, o_id: u64, vol_to_add: i64, drop_empty: bool) -> (r:
        Result<(), &'static str>)
        requires
            -crate::order::MAX_QTY_UNITS <= vol_to_add <= crate::order::MAX_QTY_UNITS,
            crate::book::find_id(old(orders)@, o_id) >= 0 ==> i64::MIN <= old(orders)@[
                crate::book::find_id(old(orders)@, o_id)].quantity + vol_to_add <= i64::MAX,
        ensures
            crate::book::find_id(old(orders)@, o_id) == -1 ==> r is Err && final(orders)@ == old(
                orders,
            )@,
            crate::book::find_id(old(orders)@, o_id) >= 0 ==> r is Ok && ({
                let ix = crate::book::find_id(old(orders)@, o_id);
                let o = old(orders)@[ix];
                let o2 = Order { quantity: (o.quantity + vol_to_add) as i64, ..o };
                if o.quantity + vol_to_add <= 0 && drop_empty {
                    final(orders)@ == old(orders)@.remove(ix)
                } else {
                    final(orders)@ == old(orders)@.update(ix, o2)
                }
            }),
    {
        match orders_position(orders, o_id) {
            Some(ix) => {
                let mut o = orders[ix].clone();
                o.quantity = o.quantity + vol_to_add;
                let empty_now = o.quantity <= 0;
                orders.set(ix, o);
                if empty_now && drop_empty {
                    orders.remove(ix);
                    proof {
                        assert(orders@ =~= old(orders)@.remove(ix as int));
                    }
                }
                Ok(())
            },
            None => Err("ERROR: order not found to cancel"),
        }
    }

    /// A copy of the player's open orders.
    pub fn copy_orders(&self) -> (r: Vec<Order>)
        ensures
            r@ == orders_of(*self),
    {
        match self {
            Player::Investor(x) => copy_orders_vec(&x.orders),
            Player::Maker(x) => copy_orders_vec(&x.orders),
            Player::Miner(x) => copy_orders_vec(&x.orders),
        }
    }

    /// A cancel order copied from the player's open order with the
    /// given id; reports an error when the id is absent.
    pub fn gen_cancel_order(&mut self, o_id: u64) -> (r: Result<Order, &'static str>)
        ensures
            *final(self) == *old(self),
            crate::book::find_id(orders_of(*old(self)), o_id) == -1 ==> r is Err,
            crate::book::find_id(orders_of(*old(self)), o_id) >= 0 ==> match r {
                Ok(o) => o == (Order {
                    order_type: OrderType::Cancel,
                    ..orders_of(*old(self))[crate::book::find_id(orders_of(*old(self)), o_id)]
                }),
                Err(_) => false,
            },
    {
        match self {
            Player::Investor(x) => gen_cancel_from(&x.orders, o_id),
            Player::Maker(x) => gen_cancel_from(&x.orders, o_id),
            Player::Miner(x) => gen_cancel_from(&x.orders, o_id),
        }
    }

    /// The ids of the player's open entering orders, in ledger order.
    pub fn get_enter_order_ids(&self) -> (r: Vec<u64>)
        ensures
            r@ == enter_ids(orders_of(*self)),
    {
        match self {
            Player::Investor(x) => collect_enter_ids(&x.orders),
            Player::Maker(x) => collect_enter_ids(&x.orders),
            Player::Miner(x) => collect_enter_ids(&x.orders),
        }
    }

    /// Whether a cancel for the given id was already sent to the
    /// mempool; always false for a maker, which keeps no sent log.
    pub fn check_double_cancel(&self, o_id: u64) -> (r: bool)
        ensures
            r == sent_of(*self).contains((o_id, OrderType::Cancel)),
    {
        let sent: &Vec<(u64, OrderType)> = match self {
            Player::Investor(x) => &x.sent_orders,
            Player::Miner(x) => &x.sent_orders,
            Player::Maker(_) => {
                proof {
                    assert(!Seq::<(u64, OrderType)>::empty().contains((
                        o_id,
                        OrderType::Cancel,
                    )));
                }
                return false;
            },
        };
        let mut i: usize = 0;
        while i < sent.len()
            invariant
                0 <= i <= sent@.len(),
                sent@ == sent_of(*self),
                forall|k: int| 0 <= k < i ==> sent@[k] != (o_id, OrderType::Cancel),
            decreases sent@.len() - i,
        {
            if sent[i].0 == o_id && sent[i].1 == OrderType::Cancel {
                proof {
                    assert(sent@.contains((o_id, OrderType::Cancel)));
                }
                return true;
            }
            i = i + 1;
        }
        proof {
            assert(!sent@.contains((o_id, OrderType::Cancel)));
        }
        false
    }

    /// Records that an order of the given kind was sent to the
    /// mempool; a maker keeps no such log.
    pub fn add_to_sent(&mut self, o_id: u64, order_type: OrderType)
        ensures
            sent_of(*final(self)) == match variant_of(*old(self)) {
                TraderT::Maker => sent_of(*old(self)),
                _ => sent_of(*old(self)).push((o_id, order_type)),
            },
            orders_of(*final(self)) == orders_of(*old(self)),
            variant_of(*final(self)) == variant_of(*old(self)),
            id_of(*final(self)) == id_of(*old(self)),
            balance_of(*final(self)) == balance_of(*old(self)),
            inventory_of(*final(self)) == inventory_of(*old(self)),
            type_of(*final(self)) == type_of(*old(self)),
    {
        match self {
            Player::Investor(x) => {
                x.sent_orders.push((o_id, order_type));
            },
            Player::Maker(_) => {},
            Player::Miner(x) => {
                x.sent_orders.push((o_id, order_type));
            },
        }
    }
}

} // verus!
