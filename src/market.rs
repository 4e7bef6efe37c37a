//! The market's state: the two pools, the positions, the resolution and
//! the trade log, with a mathematical model of each operation.
use vstd::prelude::*;
use crate::positions::{Holding, Position, PositionBook};
use crate::pricing::{
    buy_cost, buy_cost_of, buy_feasible, lemma_other_after_buy_bounds,
    lemma_other_after_sell_bounds, other_after_sell, product, sell_proceeds, sell_proceeds_of,
};
use crate::trades::{TradeLog, TradeView};

verus! {

/// Liquidity that each pool starts with.
pub const INITIAL_LIQUIDITY: u64 = 100_000_000;

/// Marker type naming the market application.
pub struct MarketEngineAbi;

/// The two outcomes that shares are traded in.
#[derive(Clone, Copy, Debug, PartialEq, Eq, Structural)]
pub enum Outcome {
    Yes,
    No,
}

/// What a market resolves to; `Invalid` refunds both sides.
#[derive(Clone, Copy, Debug, PartialEq, Eq, Structural)]
pub enum WinningOutcome {
    Yes,
    No,
    Invalid,
}

/// Why an operation was refused. A refused operation changes nothing.
#[derive(Clone, Copy, Debug, PartialEq, Eq, Structural)]
pub enum MarketError {
    /// A sell asks for more shares than the trader holds.
    InsufficientShares,
    /// Trading or resolving after the market was resolved.
    MarketAlreadyResolved,
    /// Claiming before the market was resolved.
    MarketNotResolved,
    /// The trade would empty a pool or push it past 64 bits.
    PoolExhausted,
    /// A running total would pass 64 bits.
    Overflow,
    /// An amount is not a decimal number that fits in 64 bits.
    InvalidAmount,
    /// Resolving by someone other than the market's designated resolver.
    Unauthorized,
    /// A resolution text that names no outcome.
    InvalidOutcome,
}

/// The terminal record of a resolved market.
#[derive(Clone, Debug)]
pub struct Resolution {
    pub resolved_at: u64,
    pub winning_outcome: WinningOutcome,
    pub resolver: String,
}

pub struct ResolutionView {
    pub resolved_at: u64,
    pub winning_outcome: WinningOutcome,
    pub resolver: Seq<char>,
}

impl View for Resolution {
    type V = ResolutionView;

    open spec fn view(&self) -> ResolutionView {
        ResolutionView {
            resolved_at: self.resolved_at,
            winning_outcome: self.winning_outcome,
            resolver: self.resolver@,
        }
    }
}

/// The market as a mathematical value.
pub struct MarketView {
    pub yes_pool: u64,
    pub no_pool: u64,
    pub total_volume: u64,
    pub positions: Map<Seq<char>, Holding>,
    pub resolution: Option<ResolutionView>,
    pub trades: Seq<TradeView>,
}

impl MarketView {
    pub open spec fn pool_of(self, o: Outcome) -> u64 {
        match o {
            Outcome::Yes => self.yes_pool,
            Outcome::No => self.no_pool,
        }
    }

    pub open spec fn other_of(self, o: Outcome) -> u64 {
        match o {
            Outcome::Yes => self.no_pool,
            Outcome::No => self.yes_pool,
        }
    }

    pub open spec fn with_pools(self, o: Outcome, traded: u64, other: u64) -> MarketView {
        match o {
            Outcome::Yes => MarketView { yes_pool: traded, no_pool: other, ..self },
            Outcome::No => MarketView { yes_pool: other, no_pool: traded, ..self },
        }
    }

    pub open spec fn holding_of(self, owner: Seq<char>) -> Holding {
        if self.positions.contains_key(owner) {
            self.positions[owner]
        } else {
            Holding::zero()
        }
    }

    pub open spec fn pool_product(self) -> int {
        product(self.yes_pool, self.no_pool)
    }
}

/// The product of the pools, read from either side.
proof fn lemma_pool_product(v: MarketView)
    ensures
        v.pool_product() == product(v.pool_of(Outcome::Yes), v.other_of(Outcome::Yes)),
        v.pool_product() == product(v.pool_of(Outcome::No), v.other_of(Outcome::No)),
{
    assert(v.yes_pool as int * v.no_pool as int == v.no_pool as int * v.yes_pool as int)
        by (nonlinear_arith);
}

/// Shares of outcome `o` in `h`.
pub open spec fn held_of(h: Holding, o: Outcome) -> u64 {
    match o {
        Outcome::Yes => h.yes_shares,
        Outcome::No => h.no_shares,
    }
}

/// `h` with its shares of outcome `o` set to `amount`.
pub open spec fn with_held(h: Holding, o: Outcome, amount: u64) -> Holding {
    match o {
        Outcome::Yes => Holding { yes_shares: amount, ..h },
        Outcome::No => Holding { no_shares: amount, ..h },
    }
}

/// Why a buy of exactly `n` shares is refused, if it is.
pub open spec fn buy_error(v: MarketView, owner: Seq<char>, o: Outcome, n: u64) -> Option<
    MarketError,
> {
    let cost = buy_cost_of(v.pool_of(o), v.other_of(o), n);
    let h = v.holding_of(owner);
    if !buy_feasible(v.pool_of(o), v.other_of(o), n) {
        Some(MarketError::PoolExhausted)
    } else if v.total_volume + cost > u64::MAX || held_of(h, o) + n > u64::MAX
        || h.total_invested + cost > u64::MAX {
        Some(MarketError::Overflow)
    } else {
        None
    }
}

/// The market after a buy of exactly `n` shares: the traded pool gives up
/// the shares, the opposite pool and the volume take the cost, and the
/// buyer's shares and investment grow by the same amounts.
pub open spec fn after_buy(v: MarketView, owner: Seq<char>, o: Outcome, n: u64) -> MarketView {
    let cost = buy_cost_of(v.pool_of(o), v.other_of(o), n);
    let h = v.holding_of(owner);
    let h2 = Holding {
        total_invested: (h.total_invested + cost) as u64,
        ..with_held(h, o, (held_of(h, o) + n) as u64)
    };
    MarketView {
        total_volume: (v.total_volume + cost) as u64,
        positions: v.positions.insert(owner, h2),
        ..v.with_pools(o, (v.pool_of(o) - n) as u64, (v.other_of(o) + cost) as u64)
    }
}

/// Why a sell of `n` shares is refused, if it is.
pub open spec fn sell_error(v: MarketView, owner: Seq<char>, o: Outcome, n: u64) -> Option<
    MarketError,
> {
    if held_of(v.holding_of(owner), o) < n {
        Some(MarketError::InsufficientShares)
    } else if v.pool_of(o) + n > u64::MAX {
        Some(MarketError::Overflow)
    } else if other_after_sell(v.pool_of(o), v.other_of(o), n) == 0 {
        Some(MarketError::PoolExhausted)
    } else {
        None
    }
}

/// The market after a sell of `n` shares: the traded pool takes the
/// shares back, the opposite pool pays the proceeds, and the seller's
/// investment shrinks by the proceeds, down to zero at most.
pub open spec fn after_sell(v: MarketView, owner: Seq<char>, o: Outcome, n: u64) -> MarketView {
    let proceeds = sell_proceeds_of(v.pool_of(o), v.other_of(o), n);
    let h = v.holding_of(owner);
    let invested = if h.total_invested >= proceeds {
        (h.total_invested - proceeds) as u64
    } else {
        0u64
    };
    let h2 = Holding { total_invested: invested, ..with_held(h, o, (held_of(h, o) - n) as u64) };
    MarketView {
        positions: v.positions.insert(owner, h2),
        ..v.with_pools(o, (v.pool_of(o) + n) as u64, (v.other_of(o) - proceeds) as u64)
    }
}

/// The market's state.
pub struct MarketEngineState {
    pub yes_pool: u64,
    pub no_pool: u64,
    pub total_volume: u64,
    pub positions: PositionBook,
    pub resolution: Option<Resolution>,
    pub trades: TradeLog,
}

pub open spec fn resolution_view(r: Option<Resolution>) -> Option<ResolutionView> {
    match r {
        Some(x) => Some(x@),
        None => None,
    }
}

impl View for MarketEngineState {
    type V = MarketView;

    open spec fn view(&self) -> MarketView {
        MarketView {
            yes_pool: self.yes_pool,
            no_pool: self.no_pool,
            total_volume: self.total_volume,
            positions: self.positions@,
            resolution: resolution_view(self.resolution),
            trades: self.trades@,
        }
    }
}

impl MarketEngineState {
    /// Both pools hold liquidity, and the position book and the log keep
    /// their own invariants.
    pub open spec fn wf(&self) -> bool {
        &&& self.yes_pool > 0
        &&& self.no_pool > 0
        &&& self.positions.wf()
        &&& self.trades.wf()
    }

    /// A fresh market: equal pools, no volume, no positions, no trades.
    pub fn new() -> (s: MarketEngineState)
        ensures
            s.wf(),
            s@.yes_pool == INITIAL_LIQUIDITY,
            s@.no_pool == INITIAL_LIQUIDITY,
            s@.total_volume == 0,
            s@.positions == Map::<Seq<char>, Holding>::empty(),
            s@.resolution is None,
            s@.trades == Seq::<TradeView>::empty(),
    {
        MarketEngineState {
            yes_pool: INITIAL_LIQUIDITY,
            no_pool: INITIAL_LIQUIDITY,
            total_volume: 0,
            positions: PositionBook::new(),
            resolution: None,
            trades: TradeLog::new(),
        }
    }

    pub fn pool_of(&self, o: Outcome) -> (r: u64)
        ensures
            r == self@.pool_of(o),
    {
        match o {
            Outcome::Yes => self.yes_pool,
            Outcome::No => self.no_pool,
        }
    }

    pub fn other_of(&self, o: Outcome) -> (r: u64)
        ensures
            r == self@.other_of(o),
    {
        match o {
            Outcome::Yes => self.no_pool,
            Outcome::No => self.yes_pool,
        }
    }

    fn set_pools(&mut self, o: Outcome, traded: u64, other: u64)
        ensures
            final(self)@ == old(self)@.with_pools(o, traded, other),
            final(self).positions == old(self).positions,
            final(self).trades == old(self).trades,
            final(self).resolution == old(self).resolution,
            final(self).total_volume == old(self).total_volume,
    {
        match o {
            Outcome::Yes => {
                self.yes_pool = traded;
                self.no_pool = other;
            },
            Outcome::No => {
                self.no_pool = traded;
                self.yes_pool = other;
            },
        }
    }

    /// The chance that the market gives `o`, as a fraction: the opposite
    /// pool over both pools, one half where both are empty.
    pub fn implied_probability(&self, o: Outcome) -> (r: (u128, u128))
        ensures
            self@.yes_pool + self@.no_pool == 0 ==> r == (1u128, 2u128),
            self@.yes_pool + self@.no_pool > 0 ==> r.0 == self@.other_of(o) && r.1
                == self@.yes_pool + self@.no_pool,
    {
        let total: u128 = self.yes_pool as u128 + self.no_pool as u128;
        if total == 0 {
            (1, 2)
        } else {
            (self.other_of(o) as u128, total)
        }
    }

    /// What buying `shares` of `outcome` would cost now.
    pub fn calculate_buy_cost(&self, outcome: Outcome, shares: u64) -> (cost: u64)
        ensures
            cost == buy_cost_of(self@.pool_of(outcome), self@.other_of(outcome), shares),
    {
        buy_cost(self.pool_of(outcome), self.other_of(outcome), shares)
    }

    /// What selling `shares` of `outcome` would return now.
    pub fn calculate_sell_proceeds(&self, outcome: Outcome, shares: u64) -> (proceeds: u64)
        requires
            self.wf(),
        ensures
            proceeds == sell_proceeds_of(self@.pool_of(outcome), self@.other_of(outcome), shares),
    {
        sell_proceeds(self.pool_of(outcome), self.other_of(outcome), shares)
    }

    /// The position of `owner`, all zero where it has none.
    pub fn get_position(&self, owner: &String) -> (p: Position)
        requires
            self.wf(),
        ensures
            p.owner@ == owner@,
            p.holding() == self@.holding_of(owner@),
    {
        self.positions.get(owner)
    }

    /// Buys exactly `shares` of `outcome` for `owner` at the current price,
    /// returning the cost.
    pub fn buy(&mut self, owner: &String, outcome: Outcome, shares: u64) -> (r: Result<
        u64,
        MarketError,
    >)
        requires
            old(self).wf(),
        ensures
            final(self).wf(),
            final(self).resolution == old(self).resolution,
            r is Ok ==> final(self)@.pool_product() <= old(self)@.pool_product()
                && old(self)@.pool_product() - final(self)@.pool_product() < final(self)@.pool_of(outcome),
            match buy_error(old(self)@, owner@, outcome, shares) {
                Some(e) => r == Err::<u64, MarketError>(e) && final(self)@ == old(self)@,
                None => r == Ok::<u64, MarketError>(
                    buy_cost_of(old(self)@.pool_of(outcome), old(self)@.other_of(outcome), shares),
                ) && final(self)@ == after_buy(old(self)@, owner@, outcome, shares),
            },
    {
        let ghost before = self@;
        let pool = self.pool_of(outcome);
        let other = self.other_of(outcome);
        let cost = buy_cost(pool, other, shares);
        proof {
            if shares < pool {
                lemma_other_after_buy_bounds(pool, other, shares);
            }
        }
        if cost == u64::MAX {
            return Err(MarketError::PoolExhausted);
        }
        let pos = self.positions.get(owner);
        let held = match outcome {
            Outcome::Yes => pos.yes_shares,
            Outcome::No => pos.no_shares,
        };
        if self.total_volume > u64::MAX - cost || held > u64::MAX - shares || pos.total_invested
            > u64::MAX - cost {
            return Err(MarketError::Overflow);
        }
        let h = Holding {
            yes_shares: if outcome == Outcome::Yes {
                held + shares
            } else {
                pos.yes_shares
            },
            no_shares: if outcome == Outcome::No {
                held + shares
            } else {
                pos.no_shares
            },
            total_invested: pos.total_invested + cost,
        };
        self.set_pools(outcome, pool - shares, other + cost);
        self.total_volume = self.total_volume + cost;
        self.positions.set(owner, h);
        proof {
            lemma_pool_product(before);
            lemma_pool_product(self@);
            assert(self@.pool_of(outcome) == pool - shares);
        }
        Ok(cost)
    }

    /// Sells `shares` of `outcome` that `owner` holds at the current price,
    /// returning the proceeds.
    pub fn sell(&mut self, owner: &String, outcome: Outcome, shares: u64) -> (r: Result<
        u64,
        MarketError,
    >)
        requires
            old(self).wf(),
        ensures
            final(self).wf(),
            final(self).resolution == old(self).resolution,
            r is Ok ==> final(self)@.pool_product() >= old(self)@.pool_product()
                && final(self)@.pool_product() - old(self)@.pool_product() < final(self)@.pool_of(outcome),
            match sell_error(old(self)@, owner@, outcome, shares) {
                Some(e) => r == Err::<u64, MarketError>(e) && final(self)@ == old(self)@,
                None => r == Ok::<u64, MarketError>(
                    sell_proceeds_of(
                        old(self)@.pool_of(outcome),
                        old(self)@.other_of(outcome),
                        shares,
                    ),
                ) && final(self)@ == after_sell(old(self)@, owner@, outcome, shares),
            },
    {
        let ghost before = self@;
        let pool = self.pool_of(outcome);
        let other = self.other_of(outcome);
        let pos = self.positions.get(owner);
        let held = match outcome {
            Outcome::Yes => pos.yes_shares,
            Outcome::No => pos.no_shares,
        };
        if held < shares {
            return Err(MarketError::InsufficientShares);
        }
        if pool > u64::MAX - shares {
            return Err(MarketError::Overflow);
        }
        let proceeds = sell_proceeds(pool, other, shares);
        proof {
            lemma_other_after_sell_bounds(pool, other, shares);
        }
        if proceeds == other {
            return Err(MarketError::PoolExhausted);
        }
        let invested = if pos.total_invested >= proceeds {
            pos.total_invested - proceeds
        } else {
            0
        };
        let h = Holding {
            yes_shares: if outcome == Outcome::Yes {
                held - shares
            } else {
                pos.yes_shares
            },
            no_shares: if outcome == Outcome::No {
                held - shares
            } else {
                pos.no_shares
            },
            total_invested: invested,
        };
        self.set_pools(outcome, pool + shares, other - proceeds);
        self.positions.set(owner, h);
        proof {
            lemma_pool_product(before);
            lemma_pool_product(self@);
            assert(self@.pool_of(outcome) == pool + shares);
        }
        Ok(proceeds)
    }
}

} // verus!
