//! The clearing house: the ledger of every active player's balance,
//! inventory and open orders.  It applies trade results, gas fees and
//! the maker inventory tax, and it alone owns the player records.
//!
//! Every bulk application is pinned to a fold over the player
//! sequence, and conservation of cash and shares across a block's
//! transfers is proved of that fold.

use crate::book::find_id;
use crate::exchange::{pus_view, MarketType, PlayerUpdateV, TradeResults};
use crate::history::{LikelihoodStats, PriorData, UpdateReason};
use crate::investor::Investor;
use crate::maker::{maker_orders_post, maker_orders_pre, Maker};
use crate::miner::Miner;
use crate::order::{Order, MAX_PRICE_UNITS, MAX_QTY_UNITS};
use crate::players::{
    balance_of, clamp_i128, id_of, inventory_of, orders_of, type_of, variant_of, with_balance,
    with_inventory, Player, TraderT,
};
use crate::simulation::Constants;
use crate::utility::random_u64;
use vstd::prelude::*;

verus! {

/// The index of the first player whose id reads `id`, searching from
/// `i`; -1 when no such player exists.
pub open spec fn find_player_from(s: Seq<Player>, id: Seq<char>, i: int) -> int
    decreases s.len() - i,
{
    if i < 0 || i >= s.len() {
        -1
    } else if id_of(s[i]) == id {
        i
    } else {
        find_player_from(s, id, i + 1)
    }
}

/// The index of the first player whose id reads `id`, or -1.
pub open spec fn find_player(s: Seq<Player>, id: Seq<char>) -> int {
    find_player_from(s, id, 0)
}

/// `find_player_from` returns -1 or the first matching index.
pub proof fn lemma_find_player_range(s: Seq<Player>, id: Seq<char>, i: int)
    requires
        0 <= i,
    ensures
        find_player_from(s, id, i) == -1 ==> forall|k: int|
            i <= k < s.len() ==> id_of(#[trigger] s[k]) != id,
        find_player_from(s, id, i) != -1 ==> i <= find_player_from(s, id, i) < s.len() && id_of(
            s[find_player_from(s, id, i)],
        ) == id && forall|k: int| i <= k < find_player_from(s, id, i) ==> id_of(#[trigger] s[k]) != id,
    decreases s.len() - i,
{
    if i < s.len() && id_of(s[i]) != id {
        lemma_find_player_range(s, id, i + 1);
    }
}

/// A player updated by one transfer leg: inventory first, then
/// balance, both clamped.
pub open spec fn leg(p: Player, bal_to_add: int, inv_to_add: int) -> Player {
    with_balance(
        with_inventory(p, clamp_i128(inventory_of(p) + inv_to_add) as i128),
        clamp_i128(balance_of(p) + bal_to_add) as i128,
    )
}

/// One CDA or FBA transfer applied to the players: the payer (bidder)
/// pays price times volume and gains the volume; the filler (asker)
/// receives the payment and loses the volume.  Zero-volume transfers
/// are skipped; an absent id leaves its leg unapplied.
pub open spec fn apply_one_cross(s: Seq<Player>, u: PlayerUpdateV) -> Seq<Player> {
    if u.volume == 0 {
        s
    } else {
        let payment = (u.price as int) * (u.volume as int);
        let bix = find_player(s, u.payer_id);
        let s1 = if bix >= 0 {
            s.update(bix, leg(s[bix], -payment, u.volume as int))
        } else {
            s
        };
        let aix = find_player(s1, u.vol_filler_id);
        if aix >= 0 {
            s1.update(aix, leg(s1[aix], payment, -(u.volume as int)))
        } else {
            s1
        }
    }
}

/// A block's transfers applied in order.
pub open spec fn apply_cross_updates(s: Seq<Player>, us: Seq<PlayerUpdateV>) -> Seq<Player>
    decreases us.len(),
{
    if us.len() == 0 {
        s
    } else {
        apply_one_cross(apply_cross_updates(s, us.drop_last()), us.last())
    }
}

/// Both parties of every non-degenerate transfer are registered when
/// their transfer is applied.
pub open spec fn cross_parties_present(s: Seq<Player>, us: Seq<PlayerUpdateV>) -> bool
    decreases us.len(),
{
    if us.len() == 0 {
        true
    } else {
        let prev = apply_cross_updates(s, us.drop_last());
        &&& cross_parties_present(s, us.drop_last())
        &&& (us.last().volume != 0 ==> find_player(prev, us.last().payer_id) >= 0 && find_player(
            apply_one_half(prev, us.last()),
            us.last().vol_filler_id,
        ) >= 0)
    }
}

/// The payer's leg of a transfer alone.
pub open spec fn apply_one_half(s: Seq<Player>, u: PlayerUpdateV) -> Seq<Player> {
    let payment = (u.price as int) * (u.volume as int);
    let bix = find_player(s, u.payer_id);
    if bix >= 0 {
        s.update(bix, leg(s[bix], -payment, u.volume as int))
    } else {
        s
    }
}

/// The sum of all player balances.
pub open spec fn sum_balances(s: Seq<Player>) -> int
    decreases s.len(),
{
    if s.len() == 0 {
        0
    } else {
        sum_balances(s.drop_last()) + balance_of(s.last())
    }
}

/// The sum of all player inventories.
pub open spec fn sum_inventories(s: Seq<Player>) -> int
    decreases s.len(),
{
    if s.len() == 0 {
        0
    } else {
        sum_inventories(s.drop_last()) + inventory_of(s.last())
    }
}

/// Updating one player changes the balance sum by exactly that
/// player's change, and likewise for inventories.
proof fn lemma_sum_update(s: Seq<Player>, ix: int, p: Player)
    requires
        0 <= ix < s.len(),
    ensures
        sum_balances(s.update(ix, p)) == sum_balances(s) - balance_of(s[ix]) + balance_of(p),
        sum_inventories(s.update(ix, p)) == sum_inventories(s) - inventory_of(s[ix])
            + inventory_of(p),
    decreases s.len(),
{
    if s.len() > 0 {
        if ix == s.len() - 1 {
            assert(s.update(ix, p).drop_last() =~= s.drop_last());
        } else {
            assert(s.update(ix, p).drop_last() =~= s.drop_last().update(ix, p));
            lemma_sum_update(s.drop_last(), ix, p);
            assert(s.update(ix, p).last() == s.last());
        }
    }
}

/// No clamping occurs anywhere along a block's transfers: every
/// balance and inventory adjustment stays within the representation.
pub open spec fn cross_in_range(s: Seq<Player>, us: Seq<PlayerUpdateV>) -> bool
    decreases us.len(),
{
    if us.len() == 0 {
        true
    } else {
        let prev = apply_cross_updates(s, us.drop_last());
        let u = us.last();
        let payment = (u.price as int) * (u.volume as int);
        &&& cross_in_range(s, us.drop_last())
        &&& (u.volume != 0 ==> {
            let bix = find_player(prev, u.payer_id);
            let half = apply_one_half(prev, u);
            let aix = find_player(half, u.vol_filler_id);
            &&& (bix >= 0 ==> i128::MIN <= inventory_of(prev[bix]) + u.volume <= i128::MAX
                && i128::MIN <= balance_of(prev[bix]) - payment <= i128::MAX)
            &&& (aix >= 0 ==> i128::MIN <= inventory_of(half[aix]) - u.volume <= i128::MAX
                && i128::MIN <= balance_of(half[aix]) + payment <= i128::MAX)
        })
    }
}

/// Conservation across a block: with both parties registered and no
/// adjustment clamped, applying a block's transfers moves cash from
/// bidders to askers and shares the other way, so the total balance
/// and the total inventory over all players are unchanged.
pub proof fn lemma_cross_conservation(s: Seq<Player>, us: Seq<PlayerUpdateV>)
    requires
        cross_parties_present(s, us),
        cross_in_range(s, us),
    ensures
        sum_balances(apply_cross_updates(s, us)) == sum_balances(s),
        sum_inventories(apply_cross_updates(s, us)) == sum_inventories(s),
    decreases us.len(),
{
    if us.len() > 0 {
        lemma_cross_conservation(s, us.drop_last());
        let prev = apply_cross_updates(s, us.drop_last());
        let u = us.last();
        if u.volume != 0 {
            let payment = (u.price as int) * (u.volume as int);
            let bix = find_player(prev, u.payer_id);
            let half = apply_one_half(prev, u);
            let aix = find_player(half, u.vol_filler_id);
            assert(bix >= 0 && aix >= 0);
            lemma_find_player_range(prev, u.payer_id, 0);
            lemma_find_player_range(half, u.vol_filler_id, 0);
            lemma_sum_update(prev, bix, leg(prev[bix], -payment, u.volume as int));
            lemma_sum_update(half, aix, leg(half[aix], payment, -(u.volume as int)));
        }
    }
}

/// The id views of the players of the given type, in registration
/// order.
pub open spec fn filtered_id_views(s: Seq<Player>, pt: TraderT) -> Seq<Seq<char>>
    decreases s.len(),
{
    if s.len() == 0 {
        Seq::empty()
    } else {
        filtered_id_views(s.drop_last(), pt) + if type_of(s.last()) == pt {
            seq![id_of(s.last())]
        } else {
            Seq::empty()
        }
    }
}


/// The mathematical state of one player: identity, variant, declared
/// type, ledgers and open orders.
pub ghost struct PlayerV {
    pub id: Seq<char>,
    pub variant: TraderT,
    pub ptype: TraderT,
    pub balance: i128,
    pub inventory: i128,
    pub orders: Seq<Order>,
}

/// The view of one player record.
pub open spec fn pview(p: Player) -> PlayerV {
    PlayerV {
        id: id_of(p),
        variant: variant_of(p),
        ptype: type_of(p),
        balance: balance_of(p),
        inventory: inventory_of(p),
        orders: orders_of(p),
    }
}

/// The views of the player records, in registration order.
pub open spec fn players_view(s: Seq<Player>) -> Seq<PlayerV> {
    s.map_values(|p: Player| pview(p))
}

/// The index of the first player view whose id reads `id`, searching
/// from `i`; -1 when no such player exists.
pub open spec fn find_pv_from(s: Seq<PlayerV>, id: Seq<char>, i: int) -> int
    decreases s.len() - i,
{
    if i < 0 || i >= s.len() {
        -1
    } else if s[i].id == id {
        i
    } else {
        find_pv_from(s, id, i + 1)
    }
}

/// The index of the first player view whose id reads `id`, or -1.
pub open spec fn find_pv(s: Seq<PlayerV>, id: Seq<char>) -> int {
    find_pv_from(s, id, 0)
}

/// The two index functions agree through the view.
pub proof fn lemma_find_view_agree(s: Seq<Player>, id: Seq<char>, i: int)
    requires
        0 <= i,
    ensures
        find_pv_from(players_view(s), id, i) == find_player_from(s, id, i),
    decreases s.len() - i,
{
    if i < s.len() {
        lemma_find_view_agree(s, id, i + 1);
    }
}

/// A player view updated by one transfer leg: inventory first, then
/// balance, both clamped.
pub open spec fn pv_leg(v: PlayerV, bal_to_add: int, inv_to_add: int) -> PlayerV {
    PlayerV {
        balance: clamp_i128(v.balance + bal_to_add) as i128,
        inventory: clamp_i128(v.inventory + inv_to_add) as i128,
        ..v
    }
}

/// A player view with one open order's volume adjusted: a maker keeps
/// an exhausted order, anyone else drops it; a missing order changes
/// nothing.
pub open spec fn pv_vol(v: PlayerV, order_id: u64, vol: int) -> PlayerV {
    let ix = find_id(v.orders, order_id);
    if ix < 0 {
        v
    } else {
        let o = v.orders[ix];
        let o2 = Order { quantity: (o.quantity + vol) as i64, ..o };
        if o.quantity + vol <= 0 && v.variant != TraderT::Maker {
            PlayerV { orders: v.orders.remove(ix), ..v }
        } else {
            PlayerV { orders: v.orders.update(ix, o2), ..v }
        }
    }
}

/// Viewing commutes with applying a leg to a player record.
pub proof fn lemma_pview_leg(p: Player, b: int, v: int)
    ensures
        pview(leg(p, b, v)) == pv_leg(pview(p), b, v),
{
    match p {
        Player::Investor(_) => {},
        Player::Maker(_) => {},
        Player::Miner(_) => {},
    }
}

/// Viewing commutes with replacing a player's balance.
pub proof fn lemma_pview_with_balance(p: Player, b: i128)
    ensures
        pview(with_balance(p, b)) == (PlayerV { balance: b, ..pview(p) }),
{
    match p {
        Player::Investor(_) => {},
        Player::Maker(_) => {},
        Player::Miner(_) => {},
    }
}

/// One leg applied at the identified player view; a missing id leaves
/// the sequence alone.
pub open spec fn pv_apply_leg(s: Seq<PlayerV>, id: Seq<char>, bal: int, inv: int) -> Seq<
    PlayerV,
> {
    let ix = find_pv(s, id);
    if ix >= 0 {
        s.update(ix, pv_leg(s[ix], bal, inv))
    } else {
        s
    }
}

/// One volume adjustment applied at the identified player view.
pub open spec fn pv_apply_vol(s: Seq<PlayerV>, id: Seq<char>, order_id: u64, vol: int) -> Seq<
    PlayerV,
> {
    let ix = find_pv(s, id);
    if ix >= 0 {
        s.update(ix, pv_vol(s[ix], order_id, vol))
    } else {
        s
    }
}

/// One batch-auction transfer applied to the player views: the bidder
/// pays and gains the volume, its order ledger is reconciled, then the
/// asker symmetrically.  Zero-volume transfers are skipped.
pub open spec fn apply_one_fba(s: Seq<PlayerV>, u: PlayerUpdateV) -> Seq<PlayerV> {
    if u.volume == 0 {
        s
    } else {
        let payment = (u.price as int) * (u.volume as int);
        let s1 = pv_apply_leg(s, u.payer_id, -payment, u.volume as int);
        let s2 = pv_apply_vol(s1, u.payer_id, u.payer_order_id, -(u.volume as int));
        let s3 = pv_apply_leg(s2, u.vol_filler_id, payment, -(u.volume as int));
        pv_apply_vol(s3, u.vol_filler_id, u.vol_filler_order_id, -(u.volume as int))
    }
}

/// A block of batch-auction transfers applied in order.
pub open spec fn apply_fba_updates(s: Seq<PlayerV>, us: Seq<PlayerUpdateV>) -> Seq<PlayerV>
    decreases us.len(),
{
    if us.len() == 0 {
        s
    } else {
        apply_one_fba(apply_fba_updates(s, us.drop_last()), us.last())
    }
}

/// One flow-market transfer applied to the player views: a transfer
/// whose payer is the exchange credits the asker, any other debits
/// the bidder; the owning order's ledger volume is reconciled either
/// way.
pub open spec fn apply_one_flow(s: Seq<PlayerV>, u: PlayerUpdateV) -> Seq<PlayerV> {
    let payment = (u.price as int) * (u.volume as int);
    if u.payer_id == crate::auction::na_seq() {
        let s1 = pv_apply_leg(s, u.vol_filler_id, payment, -(u.volume as int));
        pv_apply_vol(s1, u.vol_filler_id, u.vol_filler_order_id, -(u.volume as int))
    } else {
        let s1 = pv_apply_leg(s, u.payer_id, -payment, u.volume as int);
        pv_apply_vol(s1, u.payer_id, u.payer_order_id, -(u.volume as int))
    }
}

/// A block of flow-market transfers applied in order.
pub open spec fn apply_flow_updates(s: Seq<PlayerV>, us: Seq<PlayerUpdateV>) -> Seq<PlayerV>
    decreases us.len(),
{
    if us.len() == 0 {
        s
    } else {
        apply_one_flow(apply_flow_updates(s, us.drop_last()), us.last())
    }
}

/// What the batch-auction reconciliation demands of each transfer as
/// it is applied: both parties registered, their ledger volumes within
/// the representation when adjusted, and the volume bounded.
pub open spec fn fba_updates_ok(s: Seq<PlayerV>, us: Seq<PlayerUpdateV>) -> bool
    decreases us.len(),
{
    if us.len() == 0 {
        true
    } else {
        let prev = apply_fba_updates(s, us.drop_last());
        let u = us.last();
        &&& fba_updates_ok(s, us.drop_last())
        &&& (u.volume != 0 ==> {
            &&& -MAX_QTY_UNITS <= u.volume <= MAX_QTY_UNITS
            &&& find_pv(prev, u.payer_id) >= 0
            &&& vol_step_ok(
                pv_apply_leg(
                    prev,
                    u.payer_id,
                    -((u.price as int) * (u.volume as int)),
                    u.volume as int,
                ),
                u.payer_id,
                u.payer_order_id,
                -(u.volume as int),
            )
            &&& {
                let s2 = pv_apply_vol(
                    pv_apply_leg(
                        prev,
                        u.payer_id,
                        -((u.price as int) * (u.volume as int)),
                        u.volume as int,
                    ),
                    u.payer_id,
                    u.payer_order_id,
                    -(u.volume as int),
                );
                &&& find_pv(s2, u.vol_filler_id) >= 0
                &&& vol_step_ok(
                    pv_apply_leg(
                        s2,
                        u.vol_filler_id,
                        (u.price as int) * (u.volume as int),
                        -(u.volume as int),
                    ),
                    u.vol_filler_id,
                    u.vol_filler_order_id,
                    -(u.volume as int),
                )
            }
        })
    }
}

/// The identified player holds the identified order and adjusting its
/// volume stays within the representation.
pub open spec fn vol_step_ok(s: Seq<PlayerV>, id: Seq<char>, order_id: u64, vol: int) -> bool {
    let ix = find_pv(s, id);
    &&& ix >= 0
    &&& {
        let oix = find_id(s[ix].orders, order_id);
        &&& oix >= 0
        &&& i64::MIN <= s[ix].orders[oix].quantity + vol <= i64::MAX
    }
}

/// What the flow-market reconciliation demands of each transfer as it
/// is applied: the transacting party registered, its ledger order
/// present and its adjusted volume representable.
pub open spec fn flow_updates_ok(s: Seq<PlayerV>, us: Seq<PlayerUpdateV>) -> bool
    decreases us.len(),
{
    if us.len() == 0 {
        true
    } else {
        let prev = apply_flow_updates(s, us.drop_last());
        let u = us.last();
        let payment = (u.price as int) * (u.volume as int);
        &&& flow_updates_ok(s, us.drop_last())
        &&& -MAX_QTY_UNITS <= u.volume <= MAX_QTY_UNITS
        &&& if u.payer_id == crate::auction::na_seq() {
            vol_step_ok(
                pv_apply_leg(prev, u.vol_filler_id, payment, -(u.volume as int)),
                u.vol_filler_id,
                u.vol_filler_order_id,
                -(u.volume as int),
            )
        } else {
            vol_step_ok(
                pv_apply_leg(prev, u.payer_id, -payment, u.volume as int),
                u.payer_id,
                u.payer_order_id,
                -(u.volume as int),
            )
        }
    }
}

/// The product of two 64-bit values fits in 128 bits.
pub proof fn lemma_i64_prod_fits(a: int, b: int)
    requires
        -0x8000_0000_0000_0000 <= a <= 0x7fff_ffff_ffff_ffff,
        -0x8000_0000_0000_0000 <= b <= 0x7fff_ffff_ffff_ffff,
    ensures
        -0x4000_0000_0000_0000_0000_0000_0000_0000 <= a * b
            <= 0x4000_0000_0000_0000_0000_0000_0000_0000,
{
    assert(-0x4000_0000_0000_0000_0000_0000_0000_0000 <= a * b
        <= 0x4000_0000_0000_0000_0000_0000_0000_0000) by (nonlinear_arith)
        requires
            -0x8000_0000_0000_0000 <= a <= 0x7fff_ffff_ffff_ffff,
            -0x8000_0000_0000_0000 <= b <= 0x7fff_ffff_ffff_ffff,
    ;
}

/// A vector of orders recorded on their owners' ledgers in turn: each
/// order joins its owner's open orders; an unregistered owner stops
/// the pass and fails it, leaving the earlier additions in place.
pub open spec fn add_orders_v(s: Seq<PlayerV>, os: Seq<Order>) -> (Seq<PlayerV>, bool)
    decreases os.len(),
{
    if os.len() == 0 {
        (s, true)
    } else {
        let prev = add_orders_v(s, os.drop_last());
        if !prev.1 {
            prev
        } else {
            let o = os.last();
            let ix = find_pv(prev.0, o.trader_id@);
            if ix < 0 {
                (prev.0, false)
            } else {
                (
                    prev.0.update(ix, PlayerV { orders: prev.0[ix].orders.push(o), ..prev.0[ix] }),
                    true,
                )
            }
        }
    }
}

/// Once the pass has failed, the remaining orders change nothing.
proof fn lemma_add_orders_stuck(s: Seq<PlayerV>, os: Seq<Order>, k: int)
    requires
        0 <= k <= os.len(),
        !add_orders_v(s, os.take(k)).1,
    ensures
        add_orders_v(s, os) == add_orders_v(s, os.take(k)),
    decreases os.len() - k,
{
    if k < os.len() {
        assert(os.take(k + 1).drop_last() =~= os.take(k));
        lemma_add_orders_stuck(s, os, k + 1);
    } else {
        assert(os.take(k) =~= os);
    }
}

/// The sum of all player-view balances.
pub open spec fn sum_pv_balances(s: Seq<PlayerV>) -> int
    decreases s.len(),
{
    if s.len() == 0 {
        0
    } else {
        sum_pv_balances(s.drop_last()) + s.last().balance
    }
}

/// The sum of all player-view inventories.
pub open spec fn sum_pv_inventories(s: Seq<PlayerV>) -> int
    decreases s.len(),
{
    if s.len() == 0 {
        0
    } else {
        sum_pv_inventories(s.drop_last()) + s.last().inventory
    }
}

/// Updating one player view changes each sum by exactly that player's
/// change.
proof fn lemma_pv_sum_update(s: Seq<PlayerV>, ix: int, p: PlayerV)
    requires
        0 <= ix < s.len(),
    ensures
        sum_pv_balances(s.update(ix, p)) == sum_pv_balances(s) - s[ix].balance + p.balance,
        sum_pv_inventories(s.update(ix, p)) == sum_pv_inventories(s) - s[ix].inventory
            + p.inventory,
    decreases s.len(),
{
    if s.len() > 0 {
        if ix == s.len() - 1 {
            assert(s.update(ix, p).drop_last() =~= s.drop_last());
        } else {
            assert(s.update(ix, p).drop_last() =~= s.drop_last().update(ix, p));
            lemma_pv_sum_update(s.drop_last(), ix, p);
            assert(s.update(ix, p).last() == s.last());
        }
    }
}

/// Adjusting an order's volume never touches balances or inventories.
proof fn lemma_pv_vol_keeps_sums(s: Seq<PlayerV>, id: Seq<char>, order_id: u64, vol: int)
    ensures
        sum_pv_balances(pv_apply_vol(s, id, order_id, vol)) == sum_pv_balances(s),
        sum_pv_inventories(pv_apply_vol(s, id, order_id, vol)) == sum_pv_inventories(s),
{
    let ix = find_pv(s, id);
    if ix >= 0 {
        lemma_find_pv_range(s, id, 0);
        lemma_pv_sum_update(s, ix, pv_vol(s[ix], order_id, vol));
    }
}

/// `find_pv_from` returns -1 or the first matching index.
pub proof fn lemma_find_pv_range(s: Seq<PlayerV>, id: Seq<char>, i: int)
    requires
        0 <= i,
    ensures
        find_pv_from(s, id, i) != -1 ==> i <= find_pv_from(s, id, i) < s.len(),
    decreases s.len() - i,
{
    if i < s.len() && s[i].id != id {
        lemma_find_pv_range(s, id, i + 1);
    }
}

/// No clamping occurs on any cash or share adjustment along a block of
/// batch-auction transfers.
pub open spec fn fba_in_range(s: Seq<PlayerV>, us: Seq<PlayerUpdateV>) -> bool
    decreases us.len(),
{
    if us.len() == 0 {
        true
    } else {
        let prev = apply_fba_updates(s, us.drop_last());
        let u = us.last();
        let payment = (u.price as int) * (u.volume as int);
        &&& fba_in_range(s, us.drop_last())
        &&& (u.volume != 0 ==> {
            let bix = find_pv(prev, u.payer_id);
            let s1 = pv_apply_leg(prev, u.payer_id, -payment, u.volume as int);
            let s2 = pv_apply_vol(s1, u.payer_id, u.payer_order_id, -(u.volume as int));
            let aix = find_pv(s2, u.vol_filler_id);
            &&& (bix >= 0 ==> i128::MIN <= prev[bix].inventory + u.volume <= i128::MAX
                && i128::MIN <= prev[bix].balance - payment <= i128::MAX)
            &&& (aix >= 0 ==> i128::MIN <= s2[aix].inventory - u.volume <= i128::MAX
                && i128::MIN <= s2[aix].balance + payment <= i128::MAX)
        })
    }
}

/// Conservation across a batch-auction block: with both parties
/// registered and no adjustment clamped, the total balance and the
/// total inventory over all players are unchanged — each transfer only
/// moves cash from the bidder to the asker and shares the other way,
/// and the ledger reconciliation moves nothing.
pub proof fn lemma_fba_conservation(s: Seq<PlayerV>, us: Seq<PlayerUpdateV>)
    requires
        fba_updates_ok(s, us),
        fba_in_range(s, us),
    ensures
        sum_pv_balances(apply_fba_updates(s, us)) == sum_pv_balances(s),
        sum_pv_inventories(apply_fba_updates(s, us)) == sum_pv_inventories(s),
    decreases us.len(),
{
    if us.len() > 0 {
        lemma_fba_conservation(s, us.drop_last());
        let prev = apply_fba_updates(s, us.drop_last());
        let u = us.last();
        if u.volume != 0 {
            let payment = (u.price as int) * (u.volume as int);
            let bix = find_pv(prev, u.payer_id);
            lemma_find_pv_range(prev, u.payer_id, 0);
            let s1 = pv_apply_leg(prev, u.payer_id, -payment, u.volume as int);
            lemma_pv_sum_update(prev, bix, pv_leg(prev[bix], -payment, u.volume as int));
            let s2 = pv_apply_vol(s1, u.payer_id, u.payer_order_id, -(u.volume as int));
            lemma_pv_vol_keeps_sums(s1, u.payer_id, u.payer_order_id, -(u.volume as int));
            let aix = find_pv(s2, u.vol_filler_id);
            lemma_find_pv_range(s2, u.vol_filler_id, 0);
            let s3 = pv_apply_leg(s2, u.vol_filler_id, payment, -(u.volume as int));
            lemma_pv_sum_update(s2, aix, pv_leg(s2[aix], payment, -(u.volume as int)));
            lemma_pv_vol_keeps_sums(s3, u.vol_filler_id, u.vol_filler_order_id, -(u.volume as int));
        }
    }
}

/// The struct for keeping track of active players and their balances
/// and inventories, plus the running ledger of per-block gas totals.
pub struct ClearingHouse {
    pub players: Vec<Player>,
    pub gas_fees: Vec<i128>,
}

impl ClearingHouse {
    /// An empty clearing house.
    pub fn new() -> (r: ClearingHouse)
        ensures
            r.players@.len() == 0,
            r.gas_fees@.len() == 0,
    {
        ClearingHouse { players: Vec::new(), gas_fees: Vec::new() }
    }

    /// The index of the registered player with the given id.
    fn position_of(&self, id: &String) -> (r: Option<usize>)
        ensures
            match r {
                Some(ix) => find_player(self.players@, id@) == ix && ix < self.players@.len(),
                None => find_player(self.players@, id@) == -1,
            },
    {
        proof {
            lemma_find_player_range(self.players@, id@, 0);
        }
        let mut i: usize = 0;
        while i < self.players.len()
            invariant
                0 <= i <= self.players.len(),
                find_player(self.players@, id@) == find_player_from(
                    self.players@,
                    id@,
                    i as int,
                ),
            decreases self.players.len() - i,
        {
            let matches = match &self.players[i] {
                Player::Investor(x) => x.trader_id == *id,
                Player::Maker(x) => x.trader_id == *id,
                Player::Miner(x) => x.trader_id == *id,
            };
            if matches {
                return Some(i);
            }
            i = i + 1;
        }
        None
    }

    /// Registers an investor unless its id is already taken.
    pub fn reg_investor(&mut self, inv: Investor)
        ensures
            final(self).gas_fees@ == old(self).gas_fees@,
            find_player(old(self).players@, inv.trader_id@) >= 0 ==> final(self).players@ == old(self).players@,
            find_player(old(self).players@, inv.trader_id@) == -1 ==> final(self).players@ == old(self).players@.push(Player::Investor(inv)),
            final(self).players@.len() >= old(self).players@.len(),
            forall|k: int|
                0 <= k < old(self).players@.len() ==> final(self).players@[k] == old(self).players@[k],
            forall|k: int|
                old(self).players@.len() <= k < final(self).players@.len()
                    ==> final(self).players@[k] == Player::Investor(inv),
    {
        match self.position_of(&inv.trader_id) {
            Some(_) => {},
            None => {
                self.players.push(Player::Investor(inv));
            },
        }
    }

    /// Registers each investor of the vector in turn.
    pub fn reg_n_investors(&mut self, investors: Vec<Investor>)
        ensures
            final(self).gas_fees@ == old(self).gas_fees@,
            final(self).players@.len() >= old(self).players@.len(),
            forall|k: int|
                0 <= k < old(self).players@.len() ==> final(self).players@[k] == old(self).players@[k],
            forall|k: int|
                old(self).players@.len() <= k < final(self).players@.len() ==> variant_of(
                    #[trigger] final(self).players@[k],
                ) == TraderT::Investor,
    {
        let mut i: usize = 0;
        while i < investors.len()
            invariant
                0 <= i <= investors@.len(),
                self.gas_fees@ == old(self).gas_fees@,
                self.players@.len() >= old(self).players@.len(),
                forall|k: int|
                    0 <= k < old(self).players@.len() ==> self.players@[k] == old(self).players@[k],
                forall|k: int|
                    old(self).players@.len() <= k < self.players@.len() ==> variant_of(
                        #[trigger] self.players@[k],
                    ) == TraderT::Investor,
            decreases investors@.len() - i,
        {
            let inv = Investor {
                trader_id: investors[i].trader_id.clone(),
                orders: crate::players::copy_orders_vec(&investors[i].orders),
                balance: investors[i].balance,
                inventory: investors[i].inventory,
                player_type: investors[i].player_type,
                sent_orders: Self::copy_sent(&investors[i].sent_orders),
            };
            self.reg_investor(inv);
            i = i + 1;
        }
    }

    /// A copy of a sent-order log.
    fn copy_sent(v: &Vec<(u64, crate::order::OrderType)>) -> (r: Vec<(
        u64,
        crate::order::OrderType,
    )>)
        ensures
            r@ == v@,
    {
        let mut out: Vec<(u64, crate::order::OrderType)> = Vec::new();
        let mut i: usize = 0;
        while i < v.len()
            invariant
                0 <= i <= v.len(),
                out@ == v@.take(i as int),
            decreases v.len() - i,
        {
            out.push(v[i]);
            proof {
                assert(out@ =~= v@.take(i + 1));
            }
            i = i + 1;
        }
        proof {
            assert(v@.take(v@.len() as int) =~= v@);
        }
        out
    }

    /// Registers a maker unless its id is already taken.
    pub fn reg_maker(&mut self, maker: Maker)
        ensures
            final(self).gas_fees@ == old(self).gas_fees@,
            find_player(old(self).players@, maker.trader_id@) >= 0 ==> final(self).players@
                == old(self).players@,
            find_player(old(self).players@, maker.trader_id@) == -1 ==> final(self).players@
                == old(self).players@.push(Player::Maker(maker)),
            final(self).players@.len() >= old(self).players@.len(),
            forall|k: int|
                0 <= k < old(self).players@.len() ==> final(self).players@[k] == old(self).players@[k],
            forall|k: int|
                old(self).players@.len() <= k < final(self).players@.len()
                    ==> final(self).players@[k] == Player::Maker(maker),
    {
        match self.position_of(&maker.trader_id) {
            Some(_) => {},
            None => {
                self.players.push(Player::Maker(maker));
            },
        }
    }

    /// Registers each maker of the vector in turn.
    pub fn reg_n_makers(&mut self, makers: Vec<Maker>)
        ensures
            final(self).gas_fees@ == old(self).gas_fees@,
            final(self).players@.len() >= old(self).players@.len(),
            forall|k: int|
                0 <= k < old(self).players@.len() ==> final(self).players@[k] == old(self).players@[k],
            forall|k: int|
                old(self).players@.len() <= k < final(self).players@.len() ==> variant_of(
                    #[trigger] final(self).players@[k],
                ) == TraderT::Maker,
    {
        let mut i: usize = 0;
        while i < makers.len()
            invariant
                0 <= i <= makers@.len(),
                self.gas_fees@ == old(self).gas_fees@,
                self.players@.len() >= old(self).players@.len(),
                forall|k: int|
                    0 <= k < old(self).players@.len() ==> self.players@[k] == old(self).players@[k],
                forall|k: int|
                    old(self).players@.len() <= k < self.players@.len() ==> variant_of(
                        #[trigger] self.players@[k],
                    ) == TraderT::Maker,
            decreases makers@.len() - i,
        {
            let m = Maker {
                trader_id: makers[i].trader_id.clone(),
                orders: crate::players::copy_orders_vec(&makers[i].orders),
                balance: makers[i].balance,
                inventory: makers[i].inventory,
                player_type: makers[i].player_type,
                maker_type: makers[i].maker_type,
            };
            self.reg_maker(m);
            i = i + 1;
        }
    }

    /// Registers the miner unless its id is already taken.
    pub fn reg_miner(&mut self, miner: Miner)
        ensures
            final(self).gas_fees@ == old(self).gas_fees@,
            find_player(old(self).players@, miner.trader_id@) >= 0 ==> final(self).players@
                == old(self).players@,
            find_player(old(self).players@, miner.trader_id@) == -1 ==> final(self).players@
                == old(self).players@.push(Player::Miner(miner)),
    {
        match self.position_of(&miner.trader_id) {
            Some(_) => {},
            None => {
                self.players.push(Player::Miner(miner));
            },
        }
    }

    /// Removes and returns the player with the given id.
    pub fn get_player(&mut self, id: String) -> (r: Option<Player>)
        ensures
            final(self).gas_fees@ == old(self).gas_fees@,
            find_player(old(self).players@, id@) == -1 ==> r is None && final(self).players@
                == old(self).players@,
            find_player(old(self).players@, id@) >= 0 ==> {
                let ix = find_player(old(self).players@, id@);
                r == Some(old(self).players@[ix]) && final(self).players@ == old(self).players@.remove(ix)
            },
    {
        match self.position_of(&id) {
            Some(ix) => {
                let p = self.players.remove(ix);
                Some(p)
            },
            None => None,
        }
    }

    /// The number of open orders the player with the given id holds.
    pub fn get_player_order_count(&self, id: &String) -> (r: usize)
        requires
            find_player(self.players@, id@) >= 0,
        ensures
            r == orders_of(self.players@[find_player(self.players@, id@)]).len(),
    {
        match self.position_of(id) {
            Some(ix) => self.players[ix].num_orders(),
            None => 0,
        }
    }

    /// The id of some registered player of the given type, chosen at
    /// random; `None` when none is registered.
    pub fn get_rand_player_id(&self, player_type: TraderT) -> (r: Option<String>)
        ensures
            match r {
                Some(id) => exists|i: int|
                    0 <= i < self.players@.len() && type_of(#[trigger] self.players@[i])
                        == player_type && id@ == id_of(self.players@[i]),
                None => forall|i: int|
                    0 <= i < self.players@.len() ==> type_of(#[trigger] self.players@[i])
                        != player_type,
            },
    {
        let mut matching: Vec<usize> = Vec::new();
        let mut i: usize = 0;
        while i < self.players.len()
            invariant
                0 <= i <= self.players.len(),
                forall|k: int|
                    0 <= k < matching@.len() ==> (#[trigger] matching@[k]) < self.players@.len()
                        && type_of(self.players@[matching@[k] as int]) == player_type,
                forall|k: int|
                    0 <= k < i && type_of(#[trigger] self.players@[k]) == player_type
                        ==> exists|m: int|
                        0 <= m < matching@.len() && (#[trigger] matching@[m]) == k,
            decreases self.players.len() - i,
        {
            let ghost before = matching@;
            if self.players[i].get_player_type() == player_type {
                matching.push(i);
            }
            proof {
                assert forall|k: int|
                    0 <= k < i + 1 && type_of(#[trigger] self.players@[k])
                        == player_type implies exists|m: int|
                    0 <= m < matching@.len() && (#[trigger] matching@[m]) == k by {
                    if k == i as int && type_of(self.players@[i as int]) == player_type {
                        assert(matching@[matching@.len() - 1] == i as usize);
                    } else {
                        let m0 = choose|m0: int|
                            0 <= m0 < before.len() && (#[trigger] before[m0]) == k;
                        assert(matching@[m0] == k as usize);
                    }
                }
            }
            i = i + 1;
        }
        if matching.len() == 0 {
            return None;
        }
        let draw = random_u64();
        let pick = (draw % (matching.len() as u64)) as usize;
        let ix = matching[pick];
        Some(self.players[ix].get_id())
    }

    /// The ids of every registered player of the given type, in
    /// registration order.
    pub fn get_filtered_ids(&self, player_type: TraderT) -> (r: Vec<String>)
        ensures
            r@.map_values(|x: String| x@) == filtered_id_views(self.players@, player_type),
    {
        let mut ids: Vec<String> = Vec::new();
        let mut i: usize = 0;
        proof {
            assert(ids@.map_values(|x: String| x@) =~= filtered_id_views(
                self.players@.take(0),
                player_type,
            ));
        }
        while i < self.players.len()
            invariant
                0 <= i <= self.players.len(),
                ids@.map_values(|x: String| x@) == filtered_id_views(
                    self.players@.take(i as int),
                    player_type,
                ),
            decreases self.players.len() - i,
        {
            proof {
                assert(self.players@.take(i + 1).drop_last() =~= self.players@.take(i as int));
                assert(self.players@.take(i + 1).last() == self.players@[i as int]);
            }
            if self.players[i].get_player_type() == player_type {
                ids.push(self.players[i].get_id());
            }
            proof {
                assert(ids@.map_values(|x: String| x@) =~= filtered_id_views(
                    self.players@.take(i + 1),
                    player_type,
                ));
            }
            i = i + 1;
        }
        proof {
            assert(self.players@.take(self.players@.len() as int) =~= self.players@);
        }
        ids
    }

    /// Adds to the identified player's balance and returns the new
    /// balance; `None` when the id is unregistered.
    pub fn update_player_bal(&mut self, id: String, bal_to_add: i128) -> (r: Option<i128>)
        ensures
            final(self).gas_fees@ == old(self).gas_fees@,
            find_player(old(self).players@, id@) == -1 ==> r is None && final(self).players@
                == old(self).players@,
            find_player(old(self).players@, id@) >= 0 ==> {
                let ix = find_player(old(self).players@, id@);
                let nb = clamp_i128(balance_of(old(self).players@[ix]) + bal_to_add) as i128;
                r == Some(nb) && final(self).players@ == old(self).players@.update(
                    ix,
                    with_balance(old(self).players@[ix], nb),
                )
            },
    {
        match self.position_of(&id) {
            Some(ix) => {
                let mut p = self.players.remove(ix);
                p.update_bal(bal_to_add);
                let b = p.get_bal();
                self.players.insert(ix, p);
                proof {
                    assert(final(self).players@ =~= old(self).players@.update(
                        find_player(old(self).players@, id@),
                        with_balance(
                            old(self).players@[find_player(old(self).players@, id@)],
                            clamp_i128(
                                balance_of(
                                    old(self).players@[find_player(old(self).players@, id@)],
                                ) + bal_to_add,
                            ) as i128,
                        ),
                    ));
                }
                Some(b)
            },
            None => None,
        }
    }

    /// Adds to the identified player's inventory and returns the new
    /// inventory; `None` when the id is unregistered.
    pub fn update_player_inv(&mut self, id: String, inv_to_add: i128) -> (r: Option<i128>)
        ensures
            final(self).gas_fees@ == old(self).gas_fees@,
            find_player(old(self).players@, id@) == -1 ==> r is None && final(self).players@
                == old(self).players@,
            find_player(old(self).players@, id@) >= 0 ==> {
                let ix = find_player(old(self).players@, id@);
                let nv = clamp_i128(inventory_of(old(self).players@[ix]) + inv_to_add) as i128;
                r == Some(nv) && final(self).players@ == old(self).players@.update(
                    ix,
                    with_inventory(old(self).players@[ix], nv),
                )
            },
    {
        match self.position_of(&id) {
            Some(ix) => {
                let mut p = self.players.remove(ix);
                p.update_inv(inv_to_add);
                let v = p.get_inv();
                self.players.insert(ix, p);
                proof {
                    assert(final(self).players@ =~= old(self).players@.update(
                        find_player(old(self).players@, id@),
                        with_inventory(
                            old(self).players@[find_player(old(self).players@, id@)],
                            clamp_i128(
                                inventory_of(
                                    old(self).players@[find_player(old(self).players@, id@)],
                                ) + inv_to_add,
                            ) as i128,
                        ),
                    ));
                }
                Some(v)
            },
            None => None,
        }
    }

    /// Updates the identified player's inventory then balance, in one
    /// step, returning the new pair; `None` when the id is
    /// unregistered.  The update reason only labels the log record.
    pub fn update_player(
        &mut self,
        id: String,
        bal_to_add: i128,
        inv_to_add: i128,
        _reason: UpdateReason,
    ) -> (r: Option<(i128, i128)>)
        ensures
            final(self).gas_fees@ == old(self).gas_fees@,
            find_player(old(self).players@, id@) == -1 ==> r is None && final(self).players@
                == old(self).players@,
            find_player(old(self).players@, id@) >= 0 ==> {
                let ix = find_player(old(self).players@, id@);
                let p2 = leg(old(self).players@[ix], bal_to_add as int, inv_to_add as int);
                r == Some((balance_of(p2), inventory_of(p2))) && final(self).players@ == old(self).players@.update(ix, p2)
            },
    {
        match self.position_of(&id) {
            Some(ix) => {
                let mut p = self.players.remove(ix);
                p.update_inv(inv_to_add);
                p.update_bal(bal_to_add);
                let b = p.get_bal();
                let v = p.get_inv();
                self.players.insert(ix, p);
                proof {
                    let ixg = find_player(old(self).players@, id@);
                    assert(final(self).players@ =~= old(self).players@.update(
                        ixg,
                        leg(old(self).players@[ixg], bal_to_add as int, inv_to_add as int),
                    ));
                }
                Some((b, v))
            },
            None => None,
        }
    }

    /// The number of registered players.
    pub fn num_players(&self) -> (r: usize)
        ensures
            r == self.players@.len(),
    {
        self.players.len()
    }

    /// Removes the identified player outright.
    pub fn del_player(&mut self, trader_id: String) -> (r: Option<()>)
        ensures
            final(self).gas_fees@ == old(self).gas_fees@,
            find_player(old(self).players@, trader_id@) == -1 ==> r is None
                && final(self).players@ == old(self).players@,
            find_player(old(self).players@, trader_id@) >= 0 ==> r is Some && final(self).players@
                == old(self).players@.remove(find_player(old(self).players@, trader_id@)),
    {
        match self.position_of(&trader_id) {
            Some(ix) => {
                self.players.remove(ix);
                Some(())
            },
            None => None,
        }
    }

    /// Records a new open order on the owning player's ledger;
    /// reports an error when the trader is unregistered.
    pub fn new_order(&mut self, order: Order) -> (r: Result<(), &'static str>)
        ensures
            final(self).gas_fees@ == old(self).gas_fees@,
            find_player(old(self).players@, order.trader_id@) == -1 ==> r is Err && final(self).players@ == old(self).players@,
            find_player(old(self).players@, order.trader_id@) >= 0 ==> {
                let ix = find_player(old(self).players@, order.trader_id@);
                &&& r is Ok
                &&& final(self).players@.len() == old(self).players@.len()
                &&& forall|k: int|
                    0 <= k < old(self).players@.len() && k != ix ==> final(self).players@[k]
                        == old(self).players@[k]
                &&& orders_of(final(self).players@[ix]) == orders_of(
                    old(self).players@[ix],
                ).push(order)
                &&& balance_of(final(self).players@[ix]) == balance_of(old(self).players@[ix])
                &&& inventory_of(final(self).players@[ix]) == inventory_of(
                    old(self).players@[ix],
                )
                &&& id_of(final(self).players@[ix]) == id_of(old(self).players@[ix])
                &&& type_of(final(self).players@[ix]) == type_of(old(self).players@[ix])
                &&& variant_of(final(self).players@[ix]) == variant_of(old(self).players@[ix])
            },
    {
        match self.position_of(&order.trader_id) {
            Some(ix) => {
                let mut p = self.players.remove(ix);
                p.add_order(order);
                self.players.insert(ix, p);
                proof {
                    let ixg = find_player(old(self).players@, order.trader_id@);
                    assert(forall|k: int|
                        0 <= k < old(self).players@.len() && k != ixg ==> final(self).players@[k]
                            == old(self).players@[k]);
                }
                Ok(())
            },
            None => Err("Couldn't find trader to add order"),
        }
    }

    /// Cancels the identified order on the identified player's
    /// ledger; reports an error when either is missing.
    pub fn cancel_player_order(&mut self, trader_id: String, order_id: u64) -> (r: Result<
        (),
        &'static str,
    >)
        ensures
            final(self).gas_fees@ == old(self).gas_fees@,
            find_player(old(self).players@, trader_id@) == -1 ==> r is Err && final(self).players@
                == old(self).players@,
            find_player(old(self).players@, trader_id@) >= 0 ==> {
                let ix = find_player(old(self).players@, trader_id@);
                let os = orders_of(old(self).players@[ix]);
                &&& final(self).players@.len() == old(self).players@.len()
                &&& forall|k: int|
                    0 <= k < old(self).players@.len() && k != ix ==> final(self).players@[k]
                        == old(self).players@[k]
                &&& (find_id(os, order_id) == -1 ==> r is Err && orders_of(
                    final(self).players@[ix],
                ) == os)
                &&& (find_id(os, order_id) >= 0 ==> r is Ok && orders_of(
                    final(self).players@[ix],
                ) == os.remove(find_id(os, order_id)))
                &&& balance_of(final(self).players@[ix]) == balance_of(old(self).players@[ix])
                &&& inventory_of(final(self).players@[ix]) == inventory_of(
                    old(self).players@[ix],
                )
                &&& id_of(final(self).players@[ix]) == id_of(old(self).players@[ix])
                &&& type_of(final(self).players@[ix]) == type_of(old(self).players@[ix])
                &&& variant_of(final(self).players@[ix]) == variant_of(old(self).players@[ix])
            },
    {
        match self.position_of(&trader_id) {
            Some(ix) => {
                let mut p = self.players.remove(ix);
                let res = p.cancel_order(order_id);
                self.players.insert(ix, p);
                proof {
                    let ixg = find_player(old(self).players@, trader_id@);
                    assert(forall|k: int|
                        0 <= k < old(self).players@.len() && k != ixg ==> final(self).players@[k]
                            == old(self).players@[k]);
                }
                res
            },
            None => Err("Couldn't find trader to add order"),
        }
    }

    /// Records a vector of new orders, each on its owner's ledger, in
    /// order; stops at the first unregistered trader and reports it,
    /// leaving the earlier additions in place.
    pub fn new_orders(&mut self, orders: Vec<Order>) -> (r: Result<(), &'static str>)
        ensures
            final(self).gas_fees@ == old(self).gas_fees@,
            players_view(final(self).players@) == add_orders_v(
                players_view(old(self).players@),
                orders@,
            ).0,
            r is Ok <==> add_orders_v(players_view(old(self).players@), orders@).1,
    {
        let ghost v0 = players_view(old(self).players@);
        let mut i: usize = 0;
        proof {
            assert(orders@.take(0) =~= Seq::<Order>::empty());
        }
        while i < orders.len()
            invariant
                0 <= i <= orders@.len(),
                v0 == players_view(old(self).players@),
                self.gas_fees@ == old(self).gas_fees@,
                players_view(self.players@) == add_orders_v(v0, orders@.take(i as int)).0,
                add_orders_v(v0, orders@.take(i as int)).1,
            decreases orders@.len() - i,
        {
            proof {
                assert(orders@.take(i + 1).drop_last() =~= orders@.take(i as int));
                assert(orders@.take(i + 1).last() == orders@[i as int]);
                lemma_find_view_agree(self.players@, orders@[i as int].trader_id@, 0);
                lemma_find_player_range(self.players@, orders@[i as int].trader_id@, 0);
            }
            let ghost sa = self.players@;
            let order = orders[i].clone();
            match self.new_order(order) {
                Ok(()) => {},
                Err(e) => {
                    proof {
                        let ix = find_player(sa, orders@[i as int].trader_id@);
                        assert(ix == -1);
                        assert(players_view(self.players@) == players_view(sa));
                        assert(find_pv(players_view(sa), orders@[i as int].trader_id@) == -1);
                        assert(!add_orders_v(v0, orders@.take(i + 1)).1);
                        assert(add_orders_v(v0, orders@.take(i + 1)).0 == add_orders_v(
                            v0,
                            orders@.take(i as int),
                        ).0);
                        lemma_add_orders_stuck(v0, orders@, i + 1);
                    }
                    return Err(e);
                },
            }
            proof {
                let ix = find_player(sa, orders@[i as int].trader_id@);
                assert(players_view(self.players@) =~= add_orders_v(
                    v0,
                    orders@.take(i + 1),
                ).0);
            }
            i = i + 1;
        }
        proof {
            assert(orders@.take(orders@.len() as int) =~= orders@);
        }
        Ok(())
    }

    /// Replaces the identified player's order: cancels any existing
    /// order with the same id, then records the new one.
    pub fn update_player_order(&mut self, order: Order) -> (r: Result<(), &'static str>)
        ensures
            final(self).gas_fees@ == old(self).gas_fees@,
    {
        let oid = order.order_id;
        let tid = order.trader_id.clone();
        let _ = self.cancel_player_order(tid, oid);
        self.new_order(order)
    }

    /// Adds volume to the identified player's identified order,
    /// mirroring the book's change; reports an error when the player
    /// or the order is missing.
    pub fn update_player_order_vol(
        &mut self,
        trader_id: String,
        order_id: u64,
        vol_to_add: i64,
    ) -> (r: Result<(), &'static str>)
        requires
            -MAX_QTY_UNITS <= vol_to_add <= MAX_QTY_UNITS,
            ({
                let ix = find_player(old(self).players@, trader_id@);
                ix >= 0 ==> {
                    let os = orders_of(old(self).players@[ix]);
                    find_id(os, order_id) >= 0 ==> i64::MIN <= os[find_id(
                        os,
                        order_id,
                    )].quantity + vol_to_add <= i64::MAX
                }
            }),
        ensures
            final(self).gas_fees@ == old(self).gas_fees@,
            find_player(old(self).players@, trader_id@) == -1 ==> r is Err
                && final(self).players@ == old(self).players@,
            find_player(old(self).players@, trader_id@) >= 0 ==> {
                let ix = find_player(old(self).players@, trader_id@);
                &&& players_view(final(self).players@) == pv_apply_vol(
                    players_view(old(self).players@),
                    trader_id@,
                    order_id,
                    vol_to_add as int,
                )
                &&& (r is Ok <==> find_id(orders_of(old(self).players@[ix]), order_id) >= 0)
            },
    {
        proof {
            lemma_find_view_agree(self.players@, trader_id@, 0);
        }
        match self.position_of(&trader_id) {
            Some(ix) => {
                let mut p = self.players.remove(ix);
                let res = p.update_order_vol(order_id, vol_to_add);
                let ghost pg = p;
                self.players.insert(ix, p);
                proof {
                    let v0 = players_view(old(self).players@);
                    let ixg = find_player(old(self).players@, trader_id@);
                    assert(self.players@ =~= old(self).players@.update(ixg, pg));
                    let p0 = old(self).players@[ixg];
                    let os0 = orders_of(p0);
                    let oix = find_id(os0, order_id);
                    crate::book::lemma_find_id_range(os0, order_id, 0);
                    if oix == -1 {
                        assert(orders_of(pg) == os0);
                    } else {
                        let o = os0[oix];
                        let o2 = Order { quantity: (o.quantity + vol_to_add) as i64, ..o };
                        if o.quantity + vol_to_add <= 0 && variant_of(p0) != TraderT::Maker {
                            assert(orders_of(pg) == os0.remove(oix));
                        } else {
                            assert(orders_of(pg) == os0.update(oix, o2));
                        }
                    }
                    assert(pview(pg) == pv_vol(pview(p0), order_id, vol_to_add as int));
                    assert(players_view(self.players@) =~= pv_apply_vol(
                        v0,
                        trader_id@,
                        order_id,
                        vol_to_add as int,
                    ));
                }
                res
            },
            None => Err("Couldn't find trader to add order"),
        }
    }

    /// The number of open orders across every registered player.
    pub fn orders_in_house(&self) -> (r: usize)
        requires
            total_orders(self.players@) <= usize::MAX,
        ensures
            r == total_orders(self.players@),
    {
        let mut sum: usize = 0;
        let mut i: usize = 0;
        proof {
            lemma_total_orders_monotone(self.players@, 0);
        }
        while i < self.players.len()
            invariant
                0 <= i <= self.players.len(),
                sum == total_orders(self.players@.take(i as int)),
                total_orders(self.players@) <= usize::MAX,
                sum <= total_orders(self.players@),
            decreases self.players.len() - i,
        {
            proof {
                assert(self.players@.take(i + 1).drop_last() =~= self.players@.take(i as int));
                assert(self.players@.take(i + 1).last() == self.players@[i as int]);
                lemma_total_orders_monotone(self.players@, i + 1);
            }
            sum = sum + self.players[i].num_orders();
            i = i + 1;
        }
        proof {
            assert(self.players@.take(self.players@.len() as int) =~= self.players@);
        }
        sum
    }

    /// The maker with the given id quotes its orders for this block
    /// from the supplied data; `None` when the id is unregistered or
    /// not a maker.
    pub fn maker_new_orders(
        &self,
        id: String,
        data: &PriorData,
        inference: &LikelihoodStats,
        spread_draw: i64,
        gas_draw: i64,
        consts: &Constants,
    ) -> (r: Option<(Order, Order)>)
        requires
            ({
                let ix = find_player(self.players@, id@);
                ix >= 0 ==> match self.players@[ix] {
                    Player::Maker(m) => maker_orders_pre(
                        m,
                        inference.weighted_price,
                        data.mean_pool_gas,
                        spread_draw,
                        gas_draw,
                        *consts,
                    ),
                    _ => true,
                }
            }),
        ensures
            ({
                let ix = find_player(self.players@, id@);
                if ix >= 0 {
                    match self.players@[ix] {
                        Player::Maker(m) => maker_orders_post(
                            m,
                            inference.weighted_price,
                            spread_draw,
                            *consts,
                            r,
                        ),
                        _ => r is None,
                    }
                } else {
                    r is None
                }
            }),
    {
        match self.position_of(&id) {
            Some(ix) => match &self.players[ix] {
                Player::Maker(m) => m.new_orders(data, inference, spread_draw, gas_draw, consts),
                _ => None,
            },
            None => None,
        }
    }

    /// Applies a trade result to the players, dispatching on which
    /// auction produced it.
    pub fn update_house(&mut self, results: TradeResults)
        requires
            match results.auction_type {
                MarketType::CDA => match results.cross_results {
                    Some(pus) => cross_parties_present(old(self).players@, pus_view(pus@)),
                    None => true,
                },
                MarketType::FBA => match results.cross_results {
                    Some(pus) => fba_updates_ok(
                        players_view(old(self).players@),
                        pus_view(pus@),
                    ),
                    None => true,
                },
                MarketType::KLF => match (results.uniform_price, results.cross_results) {
                    (Some(_), Some(pus)) => flow_updates_ok(
                        players_view(old(self).players@),
                        pus_view(pus@),
                    ),
                    _ => true,
                },
            },
        ensures
            final(self).gas_fees@ == old(self).gas_fees@,
            match results.auction_type {
                MarketType::CDA => match results.cross_results {
                    Some(pus) => final(self).players@ == apply_cross_updates(
                        old(self).players@,
                        pus_view(pus@),
                    ),
                    None => final(self).players@ == old(self).players@,
                },
                MarketType::FBA => match results.cross_results {
                    Some(pus) => players_view(final(self).players@) == apply_fba_updates(
                        players_view(old(self).players@),
                        pus_view(pus@),
                    ),
                    None => final(self).players@ == old(self).players@,
                },
                MarketType::KLF => match (results.uniform_price, results.cross_results) {
                    (Some(_), Some(pus)) => players_view(final(self).players@)
                        == apply_flow_updates(players_view(old(self).players@), pus_view(pus@)),
                    _ => final(self).players@ == old(self).players@,
                },
            },
    {
        match results.auction_type {
            MarketType::CDA => self.cda_cross_update(results),
            MarketType::FBA => self.fba_batch_update(results),
            MarketType::KLF => self.flow_batch_update(results),
        }
    }

    /// Applies a CDA block's transfers: for each, the bidder pays
    /// price times volume and gains the volume, and the asker the
    /// reverse.  The book already adjusted the order volumes inline,
    /// so the ledgers are untouched here.
    pub fn cda_cross_update(&mut self, results: TradeResults)
        requires
            match results.cross_results {
                Some(pus) => cross_parties_present(old(self).players@, pus_view(pus@)),
                None => true,
            },
        ensures
            final(self).gas_fees@ == old(self).gas_fees@,
            match results.cross_results {
                Some(pus) => final(self).players@ == apply_cross_updates(
                    old(self).players@,
                    pus_view(pus@),
                ),
                None => final(self).players@ == old(self).players@,
            },
    {
        match results.cross_results {
            None => {},
            Some(player_updates) => {
                let ghost p0 = old(self).players@;
                let ghost us = pus_view(player_updates@);
                let mut i: usize = 0;
                proof {
                    assert(us.take(0) =~= Seq::<PlayerUpdateV>::empty());
                }
                while i < player_updates.len()
                    invariant
                        0 <= i <= player_updates@.len(),
                        us == pus_view(player_updates@),
                        us.len() == player_updates@.len(),
                        self.gas_fees@ == old(self).gas_fees@,
                        self.players@ == apply_cross_updates(p0, us.take(i as int)),
                        cross_parties_present(p0, us),
                    decreases player_updates@.len() - i,
                {
                    proof {
                        assert(us.take(i + 1).drop_last() =~= us.take(i as int));
                        assert(us.take(i + 1).last() == us[i as int]);
                        assert(us[i as int] == crate::exchange::pu_view(
                            player_updates@[i as int],
                        ));
                        lemma_present_prefix(p0, us, i + 1);
                    }
                    let bidder_id = player_updates[i].payer_id.clone();
                    let volume = player_updates[i].volume;
                    if volume != 0 {
                        proof {
                            lemma_i64_prod_fits(
                                player_updates@[i as int].price as int,
                                volume as int,
                            );
                        }
                        let payment: i128 = (player_updates[i].price as i128) * (volume as i128);
                        match self.update_player(
                            bidder_id,
                            -payment,
                            volume as i128,
                            UpdateReason::Transact,
                        ) {
                            Some(_) => {},
                            None => {
                                proof {
                                    assert(false);
                                }
                            },
                        }
                        let asker_id = player_updates[i].vol_filler_id.clone();
                        match self.update_player(
                            asker_id,
                            payment,
                            -(volume as i128),
                            UpdateReason::Transact,
                        ) {
                            Some(_) => {},
                            None => {
                                proof {
                                    assert(false);
                                }
                            },
                        }
                    }
                    proof {
                        assert(self.players@ =~= apply_cross_updates(p0, us.take(i + 1)));
                    }
                    i = i + 1;
                }
                proof {
                    assert(us.take(us.len() as int) =~= us);
                }
            },
        }
    }

    /// Applies an FBA block's transfers: the same cash and share
    /// transfers as the CDA case, plus reconciliation of each side's
    /// order ledger, which the batch step leaves in need of it.
    pub fn fba_batch_update(&mut self, results: TradeResults)
        requires
            match results.cross_results {
                Some(pus) => fba_updates_ok(players_view(old(self).players@), pus_view(pus@)),
                None => true,
            },
        ensures
            final(self).gas_fees@ == old(self).gas_fees@,
            match results.cross_results {
                Some(pus) => players_view(final(self).players@) == apply_fba_updates(
                    players_view(old(self).players@),
                    pus_view(pus@),
                ),
                None => final(self).players@ == old(self).players@,
            },
    {
        match results.cross_results {
            None => {},
            Some(player_updates) => {
                let ghost v0 = players_view(old(self).players@);
                let ghost us = pus_view(player_updates@);
                let mut i: usize = 0;
                proof {
                    assert(us.take(0) =~= Seq::<PlayerUpdateV>::empty());
                }
                while i < player_updates.len()
                    invariant
                        0 <= i <= player_updates@.len(),
                        us == pus_view(player_updates@),
                        us.len() == player_updates@.len(),
                        self.gas_fees@ == old(self).gas_fees@,
                        players_view(self.players@) == apply_fba_updates(v0, us.take(i as int)),
                        fba_updates_ok(v0, us),
                    decreases player_updates@.len() - i,
                {
                    proof {
                        assert(us.take(i + 1).drop_last() =~= us.take(i as int));
                        assert(us.take(i + 1).last() == us[i as int]);
                        assert(us[i as int] == crate::exchange::pu_view(
                            player_updates@[i as int],
                        ));
                        lemma_fba_ok_prefix(v0, us, i + 1);
                        lemma_find_view_agree(
                            self.players@,
                            player_updates@[i as int].payer_id@,
                            0,
                        );
                    }
                    let ghost prev = apply_fba_updates(v0, us.take(i as int));
                    let ghost u = us[i as int];
                    let ghost sa = self.players@;
                    let bidder_id = player_updates[i].payer_id.clone();
                    let volume = player_updates[i].volume;
                    if volume != 0 {
                        proof {
                            lemma_i64_prod_fits(
                                player_updates@[i as int].price as int,
                                volume as int,
                            );
                            lemma_find_view_agree(sa, u.payer_id, 0);
                        }
                        let payment: i128 = (player_updates[i].price as i128) * (volume as i128);
                        let ghost pay = (u.price as int) * (u.volume as int);
                        match self.update_player(
                            bidder_id,
                            -payment,
                            volume as i128,
                            UpdateReason::Transact,
                        ) {
                            Some(_) => {},
                            None => {
                                proof {
                                    assert(false);
                                }
                            },
                        }
                        let ghost s1v = pv_apply_leg(prev, u.payer_id, -pay, u.volume as int);
                        proof {
                            let ixb = find_player(sa, u.payer_id);
                            lemma_find_player_range(sa, u.payer_id, 0);
                            assert(players_view(sa) == prev);
                            assert(find_pv(prev, u.payer_id) == ixb);
                            assert(self.players@ == sa.update(
                                ixb,
                                leg(sa[ixb], -pay, u.volume as int),
                            ));
                            lemma_pview_leg(sa[ixb], -pay, u.volume as int);
                            assert(pview(sa[ixb]) == prev[ixb]);
                            assert(players_view(self.players@) =~= prev.update(
                                ixb,
                                pv_leg(prev[ixb], -pay, u.volume as int),
                            ));
                            assert(players_view(self.players@) =~= s1v);
                        }
                        let ghost sb = self.players@;
                        proof {
                            lemma_find_view_agree(sb, u.payer_id, 0);
                            lemma_find_player_range(sb, u.payer_id, 0);
                            assert(vol_step_ok(
                                s1v,
                                u.payer_id,
                                u.payer_order_id,
                                -(u.volume as int),
                            ));
                            let ixv = find_player(sb, u.payer_id);
                            assert(find_pv(s1v, u.payer_id) == ixv);
                            assert(ixv >= 0);
                            assert(orders_of(sb[ixv]) == s1v[ixv].orders);
                        }
                        let bidder_id2 = player_updates[i].payer_id.clone();
                        match self.update_player_order_vol(
                            bidder_id2,
                            player_updates[i].payer_order_id,
                            -volume,
                        ) {
                            Ok(_) => {},
                            Err(_) => {
                                proof {
                                    assert(false);
                                }
                            },
                        }
                        let ghost s2v = pv_apply_vol(
                            s1v,
                            u.payer_id,
                            u.payer_order_id,
                            -(u.volume as int),
                        );
                        proof {
                            assert(players_view(self.players@) =~= s2v);
                        }
                        let ghost sc = self.players@;
                        proof {
                            lemma_find_view_agree(sc, u.vol_filler_id, 0);
                        }
                        let asker_id = player_updates[i].vol_filler_id.clone();
                        match self.update_player(
                            asker_id,
                            payment,
                            -(volume as i128),
                            UpdateReason::Transact,
                        ) {
                            Some(_) => {},
                            None => {
                                proof {
                                    assert(false);
                                }
                            },
                        }
                        let ghost s3v = pv_apply_leg(s2v, u.vol_filler_id, pay, -(u.volume as int));
                        proof {
                            let ixa = find_player(sc, u.vol_filler_id);
                            lemma_find_player_range(sc, u.vol_filler_id, 0);
                            assert(players_view(sc) == s2v);
                            assert(find_pv(s2v, u.vol_filler_id) == ixa);
                            assert(self.players@ == sc.update(
                                ixa,
                                leg(sc[ixa], pay, -(u.volume as int)),
                            ));
                            lemma_pview_leg(sc[ixa], pay, -(u.volume as int));
                            assert(pview(sc[ixa]) == s2v[ixa]);
                            assert(players_view(self.players@) =~= s2v.update(
                                ixa,
                                pv_leg(s2v[ixa], pay, -(u.volume as int)),
                            ));
                            assert(players_view(self.players@) =~= s3v);
                        }
                        let ghost sd = self.players@;
                        proof {
                            lemma_find_view_agree(sd, u.vol_filler_id, 0);
                            lemma_find_player_range(sd, u.vol_filler_id, 0);
                            assert(vol_step_ok(
                                s3v,
                                u.vol_filler_id,
                                u.vol_filler_order_id,
                                -(u.volume as int),
                            ));
                            let ixv = find_player(sd, u.vol_filler_id);
                            assert(find_pv(s3v, u.vol_filler_id) == ixv);
                            assert(ixv >= 0);
                            assert(orders_of(sd[ixv]) == s3v[ixv].orders);
                        }
                        let asker_id2 = player_updates[i].vol_filler_id.clone();
                        match self.update_player_order_vol(
                            asker_id2,
                            player_updates[i].vol_filler_order_id,
                            -volume,
                        ) {
                            Ok(_) => {},
                            Err(_) => {
                                proof {
                                    assert(false);
                                }
                            },
                        }
                        proof {
                            assert(players_view(self.players@) =~= pv_apply_vol(
                                s3v,
                                u.vol_filler_id,
                                u.vol_filler_order_id,
                                -(u.volume as int),
                            ));
                        }
                    }
                    proof {
                        assert(players_view(self.players@) =~= apply_fba_updates(
                            v0,
                            us.take(i + 1),
                        ));
                    }
                    i = i + 1;
                }
                proof {
                    assert(us.take(us.len() as int) =~= us);
                }
            },
        }
    }

    /// Applies a flow-market block's transfers: a transfer whose payer
    /// is the exchange sentinel credits the asker, any other debits
    /// the bidder, and the owning order's ledger volume is reconciled.
    pub fn flow_batch_update(&mut self, results: TradeResults)
        requires
            match (results.uniform_price, results.cross_results) {
                (Some(_), Some(pus)) => flow_updates_ok(
                    players_view(old(self).players@),
                    pus_view(pus@),
                ),
                _ => true,
            },
        ensures
            final(self).gas_fees@ == old(self).gas_fees@,
            match (results.uniform_price, results.cross_results) {
                (Some(_), Some(pus)) => players_view(final(self).players@) == apply_flow_updates(
                    players_view(old(self).players@),
                    pus_view(pus@),
                ),
                _ => final(self).players@ == old(self).players@,
            },
    {
        if results.uniform_price.is_none() {
            return ;
        }
        match results.cross_results {
            None => {},
            Some(player_updates) => {
                let ghost v0 = players_view(old(self).players@);
                let ghost us = pus_view(player_updates@);
                let na: String = "N/A".to_owned();
                let mut i: usize = 0;
                proof {
                    assert(us.take(0) =~= Seq::<PlayerUpdateV>::empty());
                }
                while i < player_updates.len()
                    invariant
                        0 <= i <= player_updates@.len(),
                        us == pus_view(player_updates@),
                        us.len() == player_updates@.len(),
                        na@ == crate::auction::na_seq(),
                        self.gas_fees@ == old(self).gas_fees@,
                        players_view(self.players@) == apply_flow_updates(
                            v0,
                            us.take(i as int),
                        ),
                        flow_updates_ok(v0, us),
                    decreases player_updates@.len() - i,
                {
                    proof {
                        assert(us.take(i + 1).drop_last() =~= us.take(i as int));
                        assert(us.take(i + 1).last() == us[i as int]);
                        assert(us[i as int] == crate::exchange::pu_view(
                            player_updates@[i as int],
                        ));
                        lemma_flow_ok_prefix(v0, us, i + 1);
                    }
                    let ghost prev = apply_flow_updates(v0, us.take(i as int));
                    let ghost u = us[i as int];
                    let ghost sa = self.players@;
                    let volume = player_updates[i].volume;
                    proof {
                        lemma_i64_prod_fits(player_updates@[i as int].price as int, volume as int);
                    }
                    let payment: i128 = (player_updates[i].price as i128) * (volume as i128);
                    let ghost pay = (u.price as int) * (u.volume as int);
                    if player_updates[i].payer_id == na {
                        proof {
                            lemma_find_view_agree(sa, u.vol_filler_id, 0);
                        }
                        let asker_id = player_updates[i].vol_filler_id.clone();
                        let _ = self.update_player(
                            asker_id,
                            payment,
                            -(volume as i128),
                            UpdateReason::Transact,
                        );
                        let ghost s1v = pv_apply_leg(prev, u.vol_filler_id, pay, -(u.volume as int));
                        proof {
                            let ixa = find_player(sa, u.vol_filler_id);
                            lemma_find_player_range(sa, u.vol_filler_id, 0);
                            assert(players_view(sa) == prev);
                            assert(find_pv(prev, u.vol_filler_id) == ixa);
                            if ixa >= 0 {
                                assert(self.players@ == sa.update(
                                    ixa,
                                    leg(sa[ixa], pay, -(u.volume as int)),
                                ));
                                lemma_pview_leg(sa[ixa], pay, -(u.volume as int));
                                assert(pview(sa[ixa]) == prev[ixa]);
                            }
                            assert(players_view(self.players@) =~= s1v);
                        }
                        let ghost sb = self.players@;
                        proof {
                            lemma_find_view_agree(sb, u.vol_filler_id, 0);
                            lemma_find_player_range(sb, u.vol_filler_id, 0);
                            assert(vol_step_ok(
                                s1v,
                                u.vol_filler_id,
                                u.vol_filler_order_id,
                                -(u.volume as int),
                            ));
                            let ixv = find_player(sb, u.vol_filler_id);
                            assert(find_pv(s1v, u.vol_filler_id) == ixv);
                            assert(ixv >= 0);
                            assert(orders_of(sb[ixv]) == s1v[ixv].orders);
                        }
                        let asker_id2 = player_updates[i].vol_filler_id.clone();
                        match self.update_player_order_vol(
                            asker_id2,
                            player_updates[i].vol_filler_order_id,
                            -volume,
                        ) {
                            Ok(_) => {},
                            Err(_) => {
                                proof {
                                    assert(false);
                                }
                            },
                        }
                        proof {
                            assert(players_view(self.players@) =~= pv_apply_vol(
                                s1v,
                                u.vol_filler_id,
                                u.vol_filler_order_id,
                                -(u.volume as int),
                            ));
                        }
                    } else {
                        proof {
                            lemma_find_view_agree(sa, u.payer_id, 0);
                        }
                        let bidder_id = player_updates[i].payer_id.clone();
                        let _ = self.update_player(
                            bidder_id,
                            -payment,
                            volume as i128,
                            UpdateReason::Transact,
                        );
                        let ghost s1v = pv_apply_leg(prev, u.payer_id, -pay, u.volume as int);
                        proof {
                            let ixb = find_player(sa, u.payer_id);
                            lemma_find_player_range(sa, u.payer_id, 0);
                            assert(players_view(sa) == prev);
                            assert(find_pv(prev, u.payer_id) == ixb);
                            if ixb >= 0 {
                                assert(self.players@ == sa.update(
                                    ixb,
                                    leg(sa[ixb], -pay, u.volume as int),
                                ));
                                lemma_pview_leg(sa[ixb], -pay, u.volume as int);
                                assert(pview(sa[ixb]) == prev[ixb]);
                            }
                            assert(players_view(self.players@) =~= s1v);
                        }
                        let ghost sb = self.players@;
                        proof {
                            lemma_find_view_agree(sb, u.payer_id, 0);
                            lemma_find_player_range(sb, u.payer_id, 0);
                            assert(vol_step_ok(
                                s1v,
                                u.payer_id,
                                u.payer_order_id,
                                -(u.volume as int),
                            ));
                            let ixv = find_player(sb, u.payer_id);
                            assert(find_pv(s1v, u.payer_id) == ixv);
                            assert(ixv >= 0);
                            assert(orders_of(sb[ixv]) == s1v[ixv].orders);
                        }
                        let bidder_id2 = player_updates[i].payer_id.clone();
                        match self.update_player_order_vol(
                            bidder_id2,
                            player_updates[i].payer_order_id,
                            -volume,
                        ) {
                            Ok(_) => {},
                            Err(_) => {
                                proof {
                                    assert(false);
                                }
                            },
                        }
                        proof {
                            assert(players_view(self.players@) =~= pv_apply_vol(
                                s1v,
                                u.payer_id,
                                u.payer_order_id,
                                -(u.volume as int),
                            ));
                        }
                    }
                    proof {
                        assert(players_view(self.players@) =~= apply_flow_updates(
                            v0,
                            us.take(i + 1),
                        ));
                    }
                    i = i + 1;
                }
                proof {
                    assert(us.take(us.len() as int) =~= us);
                }
            },
        }
    }

    /// Applies a block's gas fees: the total joins the running gas
    /// ledger, then each listed amount is subtracted from its player's
    /// balance; unknown ids are silently skipped.  The miner's
    /// crediting entry arrives in the list as a negated amount.  The
    /// amounts arrive already in balance scale (price units times
    /// quantity units), as `Miner::collect_gas` produces them.
    pub fn apply_gas_fees(&mut self, to_change: Vec<(String, i128)>, total: i128)
        requires
            forall|k: int| 0 <= k < to_change@.len() ==> (#[trigger] to_change@[k]).1 > i128::MIN,
        ensures
            final(self).gas_fees@ == old(self).gas_fees@.push(total),
            players_view(final(self).players@) == apply_gas(
                players_view(old(self).players@),
                to_change@,
            ),
    {
        self.gas_fees.push(total);
        let ghost v0 = players_view(old(self).players@);
        let mut i: usize = 0;
        proof {
            assert(to_change@.take(0) =~= Seq::<(String, i128)>::empty());
        }
        while i < to_change.len()
            invariant
                0 <= i <= to_change@.len(),
                forall|k: int|
                    0 <= k < to_change@.len() ==> (#[trigger] to_change@[k]).1 > i128::MIN,
                self.gas_fees@ == old(self).gas_fees@.push(total),
                players_view(self.players@) == apply_gas(v0, to_change@.take(i as int)),
            decreases to_change@.len() - i,
        {
            proof {
                assert(to_change@.take(i + 1).drop_last() =~= to_change@.take(i as int));
                assert(to_change@.take(i + 1).last() == to_change@[i as int]);
                assert(to_change@[i as int].1 > i128::MIN);
                lemma_find_view_agree(self.players@, to_change@[i as int].0@, 0);
            }
            let ghost prev = apply_gas(v0, to_change@.take(i as int));
            let ghost sa = self.players@;
            let id = to_change[i].0.clone();
            let amt = to_change[i].1;
            let _ = self.update_player_bal(id, -amt);
            proof {
                let ixv = find_player(sa, to_change@[i as int].0@);
                lemma_find_player_range(sa, to_change@[i as int].0@, 0);
                assert(players_view(sa) == prev);
                assert(find_pv(prev, to_change@[i as int].0@) == ixv);
                if ixv >= 0 {
                    lemma_pview_with_balance(
                        sa[ixv],
                        clamp_i128(balance_of(sa[ixv]) + (-amt)) as i128,
                    );
                    assert(pview(sa[ixv]) == prev[ixv]);
                }
                assert(players_view(self.players@) =~= apply_gas(v0, to_change@.take(i + 1)));
            }
            i = i + 1;
        }
        proof {
            assert(to_change@.take(to_change@.len() as int) =~= to_change@);
        }
    }

    /// Taxes every maker a configured fraction of the magnitude of its
    /// inventory, subtracted from its balance.
    pub fn tax_makers(&mut self, tax: i64)
        requires
            0 <= tax,
        ensures
            final(self).gas_fees@ == old(self).gas_fees@,
            players_view(final(self).players@) == apply_tax(
                players_view(old(self).players@),
                tax as int,
            ),
    {
        let ghost v0 = players_view(old(self).players@);
        let mut i: usize = 0;
        while i < self.players.len()
            invariant
                0 <= i <= self.players@.len(),
                0 <= tax,
                v0 == players_view(old(self).players@),
                self.gas_fees@ == old(self).gas_fees@,
                self.players@.len() == old(self).players@.len(),
                players_view(self.players@) == taxed_prefix(v0, tax as int, i as int),
            decreases self.players@.len() - i,
        {
            let ghost sa = self.players@;
            if self.players[i].get_player_type() == TraderT::Maker {
                let inv = self.players[i].get_inv();
                let amt = Self::tax_amount(inv, tax);
                let mut p = self.players.remove(i);
                p.update_bal(-amt);
                let ghost pg = p;
                self.players.insert(i, p);
                proof {
                    assert(self.players@ =~= sa.update(i as int, pg));
                    assert(players_view(sa)[i as int] == v0[i as int]);
                    assert(pview(sa[i as int]) == v0[i as int]);
                    lemma_pview_with_balance(sa[i as int], balance_of(pg));
                    assert(pview(pg) == (PlayerV {
                        balance: clamp_i128(
                            balance_of(sa[i as int]) - tax_amt_spec(
                                inventory_of(sa[i as int]) as int,
                                tax as int,
                            ),
                        ) as i128,
                        ..v0[i as int]
                    }));
                }
            }
            proof {
                let cur = players_view(self.players@);
                let tgt = taxed_prefix(v0, tax as int, i + 1);
                assert forall|k: int| 0 <= k < cur.len() implies cur[k] == tgt[k] by {
                    assert(cur[k] == pview(self.players@[k]));
                    if k != i as int {
                        assert(self.players@[k] == sa[k]);
                        assert(players_view(sa)[k] == pview(sa[k]));
                        assert(players_view(sa)[k] == taxed_prefix(v0, tax as int, i as int)[k]);
                    } else {
                        assert(players_view(sa)[k] == pview(sa[k]));
                        assert(players_view(sa)[k] == taxed_prefix(v0, tax as int, i as int)[k]);
                    }
                }
                assert(cur =~= tgt);
            }
            i = i + 1;
        }
        proof {
            assert(players_view(self.players@) =~= apply_tax(v0, tax as int));
        }
    }

    /// The tax owed on an inventory at the given rate: the magnitude
    /// of their product, clamped to the representation.
    fn tax_amount(inv: i128, tax: i64) -> (r: i128)
        requires
            0 <= tax,
        ensures
            r as int == tax_amt_spec(inv as int, tax as int),
            r >= 0,
    {
        match inv.checked_mul(tax as i128) {
            Some(v) => {
                if v == i128::MIN {
                    i128::MAX
                } else if v < 0 {
                    -v
                } else {
                    v
                }
            },
            None => i128::MAX,
        }
    }

    /// Closes every player's inventory at the supplied fundamental
    /// value: each balance gains inventory times the value (clamped),
    /// and each inventory drops to zero.
    pub fn liquify(&mut self, fund_val: i64)
        requires
            0 <= fund_val <= MAX_PRICE_UNITS,
        ensures
            final(self).gas_fees@ == old(self).gas_fees@,
            players_view(final(self).players@) == apply_liquidation(
                players_view(old(self).players@),
                fund_val as int,
            ),
    {
        let ghost v0 = players_view(old(self).players@);
        let mut i: usize = 0;
        while i < self.players.len()
            invariant
                0 <= i <= self.players@.len(),
                0 <= fund_val <= MAX_PRICE_UNITS,
                v0 == players_view(old(self).players@),
                self.gas_fees@ == old(self).gas_fees@,
                self.players@.len() == old(self).players@.len(),
                players_view(self.players@) == liquidated_prefix(v0, fund_val as int, i as int),
            decreases self.players@.len() - i,
        {
            let ghost sa = self.players@;
            let inv = self.players[i].get_inv();
            let gain = Self::liquidation_gain(inv, fund_val);
            let mut p = self.players.remove(i);
            p.update_bal(gain);
            match &mut p {
                Player::Investor(x) => {
                    x.inventory = 0;
                },
                Player::Maker(x) => {
                    x.inventory = 0;
                },
                Player::Miner(x) => {
                    x.inventory = 0;
                },
            }
            let ghost pg = p;
            self.players.insert(i, p);
            proof {
                assert(self.players@ =~= sa.update(i as int, pg));
                assert(players_view(sa)[i as int] == v0[i as int]);
                assert(pview(sa[i as int]) == v0[i as int]);
                assert(pview(pg) == (PlayerV {
                    balance: clamp_i128(
                        balance_of(sa[i as int]) + clamp_i128(
                            inventory_of(sa[i as int]) * fund_val,
                        ),
                    ) as i128,
                    inventory: 0,
                    ..v0[i as int]
                })) by {
                    match pg {
                        Player::Investor(_) => {},
                        Player::Maker(_) => {},
                        Player::Miner(_) => {},
                    }
                }
                let cur = players_view(self.players@);
                let tgt = liquidated_prefix(v0, fund_val as int, i + 1);
                assert forall|k: int| 0 <= k < cur.len() implies cur[k] == tgt[k] by {
                    assert(cur[k] == pview(self.players@[k]));
                    if k != i as int {
                        assert(self.players@[k] == sa[k]);
                        assert(players_view(sa)[k] == pview(sa[k]));
                        assert(players_view(sa)[k] == liquidated_prefix(
                            v0,
                            fund_val as int,
                            i as int,
                        )[k]);
                    }
                }
                assert(cur =~= tgt);
            }
            i = i + 1;
        }
        proof {
            assert(players_view(self.players@) =~= apply_liquidation(v0, fund_val as int));
        }
    }

    /// The cash an inventory closes for at the fundamental value:
    /// their product, clamped to the representation.
    fn liquidation_gain(inv: i128, fund_val: i64) -> (r: i128)
        requires
            0 <= fund_val,
        ensures
            r as int == clamp_i128(inv * fund_val),
    {
        match inv.checked_mul(fund_val as i128) {
            Some(v) => v,
            None => {
                proof {
                    assert(inv >= 0 ==> inv * fund_val >= 0) by (nonlinear_arith)
                        requires
                            0 <= fund_val,
                    ;
                    assert(inv <= 0 ==> inv * fund_val <= 0) by (nonlinear_arith)
                        requires
                            0 <= fund_val,
                    ;
                }
                if inv > 0 {
                    i128::MAX
                } else {
                    i128::MIN
                }
            },
        }
    }
}

/// The number of open orders across the player sequence.
pub open spec fn total_orders(s: Seq<Player>) -> int
    decreases s.len(),
{
    if s.len() == 0 {
        0
    } else {
        total_orders(s.drop_last()) + orders_of(s.last()).len()
    }
}

/// Prefixes carry no more orders than the whole.
pub proof fn lemma_total_orders_monotone(s: Seq<Player>, k: int)
    requires
        0 <= k <= s.len(),
    ensures
        0 <= total_orders(s.take(k)) <= total_orders(s),
    decreases s.len() - k,
{
    lemma_total_orders_nonneg(s.take(k));
    if k < s.len() {
        lemma_total_orders_monotone(s, k + 1);
        assert(s.take(k + 1).drop_last() =~= s.take(k));
        assert(s.take(k + 1).last() == s[k]);
    } else {
        assert(s.take(k) =~= s);
    }
}

/// Order counts are non-negative.
proof fn lemma_total_orders_nonneg(s: Seq<Player>)
    ensures
        total_orders(s) >= 0,
    decreases s.len(),
{
    if s.len() > 0 {
        lemma_total_orders_nonneg(s.drop_last());
    }
}

/// Presence of parties is preserved on prefixes of the update list.
pub proof fn lemma_present_prefix(s: Seq<Player>, us: Seq<PlayerUpdateV>, k: int)
    requires
        0 <= k <= us.len(),
        cross_parties_present(s, us),
    ensures
        cross_parties_present(s, us.take(k)),
    decreases us.len() - k,
{
    if k < us.len() {
        assert(us.take(us.len() as int) =~= us);
        lemma_present_prefix_step(s, us);
        lemma_present_prefix(s, us.drop_last(), k);
        assert(us.drop_last().take(k) =~= us.take(k));
    } else {
        assert(us.take(k) =~= us);
    }
}

/// One unfolding step of prefix preservation.
proof fn lemma_present_prefix_step(s: Seq<Player>, us: Seq<PlayerUpdateV>)
    requires
        cross_parties_present(s, us),
        us.len() > 0,
    ensures
        cross_parties_present(s, us.drop_last()),
{
}

/// The batch reconciliation conditions are preserved on prefixes.
pub proof fn lemma_fba_ok_prefix(s: Seq<PlayerV>, us: Seq<PlayerUpdateV>, k: int)
    requires
        0 <= k <= us.len(),
        fba_updates_ok(s, us),
    ensures
        fba_updates_ok(s, us.take(k)),
    decreases us.len() - k,
{
    if k < us.len() {
        lemma_fba_ok_prefix(s, us.drop_last(), k);
        assert(us.drop_last().take(k) =~= us.take(k));
    } else {
        assert(us.take(k) =~= us);
    }
}

/// The flow reconciliation conditions are preserved on prefixes.
pub proof fn lemma_flow_ok_prefix(s: Seq<PlayerV>, us: Seq<PlayerUpdateV>, k: int)
    requires
        0 <= k <= us.len(),
        flow_updates_ok(s, us),
    ensures
        flow_updates_ok(s, us.take(k)),
    decreases us.len() - k,
{
    if k < us.len() {
        lemma_flow_ok_prefix(s, us.drop_last(), k);
        assert(us.drop_last().take(k) =~= us.take(k));
    } else {
        assert(us.take(k) =~= us);
    }
}

/// A block's gas list applied in order: each listed amount leaves its
/// player's balance, clamped; unknown ids are skipped.
pub open spec fn apply_gas(s: Seq<PlayerV>, cs: Seq<(String, i128)>) -> Seq<PlayerV>
    decreases cs.len(),
{
    if cs.len() == 0 {
        s
    } else {
        let prev = apply_gas(s, cs.drop_last());
        let c = cs.last();
        let ix = find_pv(prev, c.0@);
        if ix >= 0 {
            prev.update(
                ix,
                PlayerV {
                    balance: clamp_i128(prev[ix].balance - c.1) as i128,
                    ..prev[ix]
                },
            )
        } else {
            prev
        }
    }
}

/// The tax owed on an inventory at the given rate.
pub open spec fn tax_amt_spec(inv: int, tax: int) -> int {
    clamp_i128(crate::auction::abs_i(inv * tax))
}

/// The players with every maker taxed; non-makers are untouched.
pub open spec fn apply_tax(s: Seq<PlayerV>, tax: int) -> Seq<PlayerV> {
    taxed_prefix(s, tax, s.len() as int)
}

/// The players with the first `k` taxed where they are makers.
pub open spec fn taxed_prefix(s: Seq<PlayerV>, tax: int, k: int) -> Seq<PlayerV> {
    Seq::new(
        s.len(),
        |i: int|
            if i < k && s[i].ptype == TraderT::Maker {
                PlayerV {
                    balance: clamp_i128(s[i].balance - tax_amt_spec(s[i].inventory as int, tax))
                        as i128,
                    ..s[i]
                }
            } else {
                s[i]
            },
    )
}

/// The players with every inventory closed at the fundamental value.
pub open spec fn apply_liquidation(s: Seq<PlayerV>, fund_val: int) -> Seq<PlayerV> {
    liquidated_prefix(s, fund_val, s.len() as int)
}

/// The players with the first `k` inventories closed.
pub open spec fn liquidated_prefix(s: Seq<PlayerV>, fund_val: int, k: int) -> Seq<PlayerV> {
    Seq::new(
        s.len(),
        |i: int|
            if i < k {
                PlayerV {
                    balance: clamp_i128(
                        s[i].balance + clamp_i128(s[i].inventory * fund_val),
                    ) as i128,
                    inventory: 0,
                    ..s[i]
                }
            } else {
                s[i]
            },
    )
}

} // verus!
