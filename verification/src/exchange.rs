//! The market designs and the result records the matching engines emit.

use vstd::prelude::*;

verus! {

/// The three market designs run on identical order flow.
#[derive(Clone, Copy, Debug, PartialEq, Eq, Structural)]
pub enum MarketType {
    CDA,
    FBA,
    KLF,
}

/// One transfer between two players (or between a player and the
/// exchange, for flow markets): the payer buys `volume` at `price`
/// from the volume filler.
#[derive(Debug)]
pub struct PlayerUpdate {
    pub payer_id: String,
    pub vol_filler_id: String,
    pub payer_order_id: u64,
    pub vol_filler_order_id: u64,
    pub price: i64,
    pub volume: i64,
    pub cancel: bool,
}

impl Clone for PlayerUpdate {
    /// A clone is the same transfer, field for field.
    fn clone(&self) -> (r: PlayerUpdate)
        ensures
            r == *self,
    {
        PlayerUpdate {
            payer_id: self.payer_id.clone(),
            vol_filler_id: self.vol_filler_id.clone(),
            payer_order_id: self.payer_order_id,
            vol_filler_order_id: self.vol_filler_order_id,
            price: self.price,
            volume: self.volume,
            cancel: self.cancel,
        }
    }
}

impl PlayerUpdate {
    /// Builds a transfer record from its parts.
    pub fn new(
        payer_id: String,
        vol_filler_id: String,
        payer_order_id: u64,
        vol_filler_order_id: u64,
        price: i64,
        volume: i64,
        cancel: bool,
    ) -> (r: PlayerUpdate)
        ensures
            r == (PlayerUpdate {
                payer_id,
                vol_filler_id,
                payer_order_id,
                vol_filler_order_id,
                price,
                volume,
                cancel,
            }),
    {
        PlayerUpdate {
            payer_id,
            vol_filler_id,
            payer_order_id,
            vol_filler_order_id,
            price,
            volume,
            cancel,
        }
    }
}

/// The view of a transfer: the same record with its trader ids taken
/// as character sequences, so that records built from different string
/// allocations compare equal.
pub ghost struct PlayerUpdateV {
    pub payer_id: Seq<char>,
    pub vol_filler_id: Seq<char>,
    pub payer_order_id: u64,
    pub vol_filler_order_id: u64,
    pub price: i64,
    pub volume: i64,
    pub cancel: bool,
}

/// The view of one transfer record.
pub open spec fn pu_view(u: PlayerUpdate) -> PlayerUpdateV {
    PlayerUpdateV {
        payer_id: u.payer_id@,
        vol_filler_id: u.vol_filler_id@,
        payer_order_id: u.payer_order_id,
        vol_filler_order_id: u.vol_filler_order_id,
        price: u.price,
        volume: u.volume,
        cancel: u.cancel,
    }
}

/// The views of a sequence of transfers, in order.
pub open spec fn pus_view(s: Seq<PlayerUpdate>) -> Seq<PlayerUpdateV> {
    s.map_values(|u: PlayerUpdate| pu_view(u))
}

/// Viewing distributes over appending one transfer.
pub proof fn lemma_pus_view_push(s: Seq<PlayerUpdate>, u: PlayerUpdate)
    ensures
        pus_view(s.push(u)) == pus_view(s).push(pu_view(u)),
{
    assert(pus_view(s.push(u)) =~= pus_view(s).push(pu_view(u)));
}

/// The mathematical content of a trade result: which auction ran, the
/// uniform price if one was found, the aggregate demand and supply that
/// cleared, and the emitted transfers in order.
pub ghost struct TradeResultsV {
    pub auction_type: MarketType,
    pub uniform_price: Option<i64>,
    pub agg_demand: int,
    pub agg_supply: int,
    pub cross_results: Option<Seq<PlayerUpdateV>>,
}

/// What one auction (or one incremental cross) produced.
#[derive(Debug)]
pub struct TradeResults {
    pub auction_type: MarketType,
    pub uniform_price: Option<i64>,
    pub agg_demand: i128,
    pub agg_supply: i128,
    pub cross_results: Option<Vec<PlayerUpdate>>,
}

impl View for TradeResults {
    type V = TradeResultsV;

    open spec fn view(&self) -> TradeResultsV {
        TradeResultsV {
            auction_type: self.auction_type,
            uniform_price: self.uniform_price,
            agg_demand: self.agg_demand as int,
            agg_supply: self.agg_supply as int,
            cross_results: match self.cross_results {
                Some(v) => Some(pus_view(v@)),
                None => None,
            },
        }
    }
}

impl Clone for TradeResults {
    /// A clone carries the same mathematical content.
    fn clone(&self) -> (r: TradeResults)
        ensures
            r@ == self@,
    {
        let cross: Option<Vec<PlayerUpdate>> = match &self.cross_results {
            None => None,
            Some(v) => {
                let mut out: Vec<PlayerUpdate> = Vec::new();
                let mut i: usize = 0;
                while i < v.len()
                    invariant
                        0 <= i <= v.len(),
                        out@ == v@.take(i as int),
                    decreases v.len() - i,
                {
                    out.push(v[i].clone());
                    proof {
                        assert(out@ =~= v@.take(i + 1));
                    }
                    i = i + 1;
                }
                proof {
                    assert(v@.take(v@.len() as int) =~= v@);
                }
                Some(out)
            },
        };
        TradeResults {
            auction_type: self.auction_type,
            uniform_price: self.uniform_price,
            agg_demand: self.agg_demand,
            agg_supply: self.agg_supply,
            cross_results: cross,
        }
    }
}

impl TradeResults {
    /// Builds a result record from its parts.
    pub fn new(
        a_t: MarketType,
        p: Option<i64>,
        agg_d: i128,
        agg_s: i128,
        player_updates: Option<Vec<PlayerUpdate>>,
    ) -> (r: TradeResults)
        ensures
            r.auction_type == a_t,
            r.uniform_price == p,
            r.agg_demand == agg_d,
            r.agg_supply == agg_s,
            r.cross_results == player_updates,
    {
        TradeResults {
            auction_type: a_t,
            uniform_price: p,
            agg_demand: agg_d,
            agg_supply: agg_s,
            cross_results: player_updates,
        }
    }
}

} // verus!
