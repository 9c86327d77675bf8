//! Simulation-wide state and configuration: the shared block counter
//! every task polls for shutdown, the typed constants read from the
//! configuration file, and the table of sampling-distribution
//! parameters indexed by their reason.
//!
//! Drawing from the distributions involves floating point and a random
//! source, so the sampling itself lives with the driver; this module
//! owns the table, its layout and its lookups.

use crate::book::Book;
use crate::clearing_house::ClearingHouse;
use crate::exchange::MarketType;
use crate::history::History;
use crate::mempool::MemPool;
use vstd::prelude::*;

verus! {

/// The number of distribution reasons a configuration table holds.
pub const NUM_DISTS: usize = 14;

/// The shared block counter; reaching `num_blocks` tells every task to
/// wind down.
pub struct BlockNum {
    pub num: u64,
}

impl BlockNum {
    /// A counter starting at block zero.
    pub fn new() -> (r: BlockNum)
        ensures
            r.num == 0,
    {
        BlockNum { num: 0 }
    }

    /// Advances to the next block.
    pub fn inc_count(&mut self)
        requires
            old(self).num < u64::MAX,
        ensures
            final(self).num == old(self).num + 1,
    {
        self.num = self.num + 1;
    }

    /// The current block number.
    pub fn read_count(&self) -> (r: u64)
        ensures
            r == self.num,
    {
        self.num
    }
}

/// The typed constants of one experiment, in the configuration file's
/// column order.  Prices, spreads, probabilities and the inventory tax
/// rate are fixed-point values scaled by 10^6.
#[derive(Clone, Copy, Debug)]
pub struct Constants {
    pub batch_interval: u64,
    pub num_investors: u64,
    pub num_makers: u64,
    pub block_size: usize,
    pub num_blocks: u64,
    pub market_type: MarketType,
    pub front_run_perc: i64,
    pub flow_order_offset: i64,
    pub maker_prop_delay: u64,
    pub maker_base_spread: i64,
    pub maker_enter_prob: i64,
    pub max_held_inventory: i64,
    pub maker_inv_tax: i64,
}

impl Constants {
    /// Builds the constants record from its columns.
    pub fn new(
        b_i: u64,
        n_i: u64,
        n_m: u64,
        b_s: usize,
        n_b: u64,
        m_t: MarketType,
        f_r: i64,
        f_o_o: i64,
        m_p_d: u64,
        t_s: i64,
        mep: i64,
        mhi: i64,
        mit: i64,
    ) -> (r: Constants)
        ensures
            r == (Constants {
                batch_interval: b_i,
                num_investors: n_i,
                num_makers: n_m,
                block_size: b_s,
                num_blocks: n_b,
                market_type: m_t,
                front_run_perc: f_r,
                flow_order_offset: f_o_o,
                maker_prop_delay: m_p_d,
                maker_base_spread: t_s,
                maker_enter_prob: mep,
                max_held_inventory: mhi,
                maker_inv_tax: mit,
            }),
    {
        Constants {
            batch_interval: b_i,
            num_investors: n_i,
            num_makers: n_m,
            block_size: b_s,
            num_blocks: n_b,
            market_type: m_t,
            front_run_perc: f_r,
            flow_order_offset: f_o_o,
            maker_prop_delay: m_p_d,
            maker_base_spread: t_s,
            maker_enter_prob: mep,
            max_held_inventory: mhi,
            maker_inv_tax: mit,
        }
    }
}

/// The assembled state of one experiment: the configuration, the
/// shared resources every task reads and writes, and the block
/// counter.  The driver owns it and runs the periodic tasks over it.
pub struct Simulation {
    pub dists: Distributions,
    pub consts: Constants,
    pub house: ClearingHouse,
    pub mempool: MemPool,
    pub bids_book: Book,
    pub asks_book: Book,
    pub history: History,
    pub block_num: BlockNum,
}

impl Simulation {
    /// Assembles a simulation from its components.
    pub fn new(
        dists: Distributions,
        consts: Constants,
        house: ClearingHouse,
        mempool: MemPool,
        bids_book: Book,
        asks_book: Book,
        history: History,
    ) -> (r: Simulation)
        ensures
            r.consts == consts,
            r.block_num.num == 0,
    {
        Simulation {
            dists,
            consts,
            house,
            mempool,
            bids_book,
            asks_book,
            history,
            block_num: BlockNum::new(),
        }
    }
}

/// The shape of a sampling distribution.
#[derive(Clone, Copy, Debug, PartialEq, Eq, Structural)]
pub enum DistType {
    Uniform,
    Normal,
    Poisson,
    Exponential,
}

/// What a sampled value is for; each reason indexes one row of the
/// distribution table.
#[derive(Clone, Copy, Debug, PartialEq, Eq, Structural)]
pub enum DistReason {
    AsksCenter,
    BidsCenter,
    MinerFrontRun,
    InvestorVolume,
    MinerFrameForm,
    PropagationDelay,
    InvestorGas,
    InvestorEnter,
    MakerType,
    MakerInventory,
    MakerBalance,
    MakerOrderVolume,
    InvestorBalance,
    InvestorInventory,
}

/// The table index of each distribution reason, in declaration order.
pub open spec fn dist_reason_index(r: DistReason) -> int {
    match r {
        DistReason::AsksCenter => 0,
        DistReason::BidsCenter => 1,
        DistReason::MinerFrontRun => 2,
        DistReason::InvestorVolume => 3,
        DistReason::MinerFrameForm => 4,
        DistReason::PropagationDelay => 5,
        DistReason::InvestorGas => 6,
        DistReason::InvestorEnter => 7,
        DistReason::MakerType => 8,
        DistReason::MakerInventory => 9,
        DistReason::MakerBalance => 10,
        DistReason::MakerOrderVolume => 11,
        DistReason::InvestorBalance => 12,
        DistReason::InvestorInventory => 13,
    }
}

impl DistReason {
    /// The reason's position in the distribution table.
    pub fn index(&self) -> (r: usize)
        ensures
            r == dist_reason_index(*self),
            r < NUM_DISTS,
    {
        match self {
            DistReason::AsksCenter => 0,
            DistReason::BidsCenter => 1,
            DistReason::MinerFrontRun => 2,
            DistReason::InvestorVolume => 3,
            DistReason::MinerFrameForm => 4,
            DistReason::PropagationDelay => 5,
            DistReason::InvestorGas => 6,
            DistReason::InvestorEnter => 7,
            DistReason::MakerType => 8,
            DistReason::MakerInventory => 9,
            DistReason::MakerBalance => 10,
            DistReason::MakerOrderVolume => 11,
            DistReason::InvestorBalance => 12,
            DistReason::InvestorInventory => 13,
        }
    }
}

/// The distribution table built from a configuration sequence: start
/// from all-default rows and write each configured row at its reason's
/// index, later rows overriding earlier ones.
pub open spec fn dists_from_config(config: Seq<(DistReason, i64, i64, i64, DistType)>) -> Seq<
    (i64, i64, i64, DistType),
>
    decreases config.len(),
{
    if config.len() == 0 {
        Seq::new(NUM_DISTS as nat, |i: int| (0i64, 0i64, 0i64, DistType::Uniform))
    } else {
        let e = config.last();
        dists_from_config(config.drop_last()).update(
            dist_reason_index(e.0),
            (e.1, e.2, e.3, e.4),
        )
    }
}

/// Each row holds a distribution's two shape parameters, a scalar the
/// draw is multiplied by, and the distribution type, all indexed by
/// `DistReason`.
#[derive(Debug, Clone)]
pub struct Distributions {
    pub dists: Vec<(i64, i64, i64, DistType)>,
}

impl Distributions {
    /// Builds the table from configuration rows of
    /// `(reason, v1, v2, scalar, type)`.
    pub fn new(config: Vec<(DistReason, i64, i64, i64, DistType)>) -> (r: Distributions)
        requires
            config@.len() > 0,
        ensures
            r.dists@ == dists_from_config(config@),
            r.dists@.len() == NUM_DISTS,
    {
        proof {
            lemma_dists_from_config_len(config@);
        }
        let mut v: Vec<(i64, i64, i64, DistType)> = Vec::new();
        let mut i: usize = 0;
        while i < NUM_DISTS
            invariant
                0 <= i <= NUM_DISTS,
                v@.len() == i,
                forall|k: int| 0 <= k < i ==> v@[k] == (0i64, 0i64, 0i64, DistType::Uniform),
            decreases NUM_DISTS - i,
        {
            v.push((0, 0, 0, DistType::Uniform));
            i = i + 1;
        }
        proof {
            assert(v@ =~= dists_from_config(config@.take(0)));
        }
        let mut j: usize = 0;
        while j < config.len()
            invariant
                0 <= j <= config.len(),
                v@ == dists_from_config(config@.take(j as int)),
                v@.len() == NUM_DISTS,
            decreases config.len() - j,
        {
            proof {
                assert(config@.take(j + 1).drop_last() =~= config@.take(j as int));
                assert(config@.take(j + 1).last() == config@[j as int]);
            }
            let entry = config[j];
            let ix = entry.0.index();
            v.set(ix, (entry.1, entry.2, entry.3, entry.4));
            j = j + 1;
        }
        proof {
            assert(config@.take(config@.len() as int) =~= config@);
        }
        Distributions { dists: v }
    }

    /// The two shape parameters configured for the given reason.
    pub fn read_dist_params(&self, which_dist: DistReason) -> (r: (i64, i64))
        requires
            self.dists@.len() == NUM_DISTS,
        ensures
            r.0 == self.dists@[dist_reason_index(which_dist)].0,
            r.1 == self.dists@[dist_reason_index(which_dist)].1,
    {
        let ix = which_dist.index();
        let entry = self.dists[ix];
        (entry.0, entry.1)
    }
}

/// The table always holds one row per reason.
pub proof fn lemma_dists_from_config_len(config: Seq<(DistReason, i64, i64, i64, DistType)>)
    ensures
        dists_from_config(config).len() == NUM_DISTS,
    decreases config.len(),
{
    if config.len() > 0 {
        lemma_dists_from_config_len(config.drop_last());
    }
}

} // verus!
