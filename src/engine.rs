//! The market's four operations: buy, sell, resolve and claim. Once the
//! market is resolved, only claims are taken.
use vstd::prelude::*;
use crate::market::{
    after_buy, after_sell, buy_error, sell_error, MarketEngineState, MarketError, MarketView,
    Outcome, Resolution, ResolutionView, WinningOutcome,
};
use crate::positions::{Holding, Position};
use crate::pricing::{
    affordable, buy_cost_of, fills_exactly, lemma_other_after_buy_bounds, lemma_other_after_sell_bounds,
    lemma_round_trip, max_affordable, other_after_buy, other_after_sell, product,
    sell_proceeds_of,
};
use crate::text::{amount_text, decimal_text, decimal_value, parse_amount, text_is};
use crate::trades::{log_has_room, Side, TradeView};

verus! {

/// A request to the market. Amounts are decimal text.
pub enum Operation {
    /// Buy as many shares of `outcome` as `max_cost` pays for.
    Buy { outcome: Outcome, max_cost: String },
    /// Sell `shares` shares of `outcome`.
    Sell { outcome: Outcome, shares: String },
    /// Resolve the market to `"Yes"`, `"No"` or `"Invalid"`.
    Resolve { winning_outcome: String },
    /// Collect the payout of a resolved market.
    Claim,
}

/// The number of shares that a budget of `max_cost` fills: the one count
/// that `fills_exactly` describes, which is unique because the condition
/// on each count up to the cap pins it down.
pub open spec fn affordable_shares(pool: u64, other_pool: u64, max_cost: u64) -> u64 {
    choose|n: u64| fills_exactly(pool, other_pool, max_cost, n)
}

/// Any count that `fills_exactly` describes is the one that
/// `affordable_shares` names, so a caller can read `buy`'s result off a
/// count it has checked.
pub proof fn lemma_affordable_shares(pool: u64, other_pool: u64, max_cost: u64, n: u64)
    requires
        fills_exactly(pool, other_pool, max_cost, n),
    ensures
        affordable_shares(pool, other_pool, max_cost) == n,
{
    let m = affordable_shares(pool, other_pool, max_cost);
    assert(fills_exactly(pool, other_pool, max_cost, m));
    if m < n {
        assert(affordable(pool, other_pool, max_cost, n));
    } else if n < m {
        assert(affordable(pool, other_pool, max_cost, m));
    }
}

/// The log entry of the next trade.
pub open spec fn next_entry(
    v: MarketView,
    owner: Seq<char>,
    o: Outcome,
    side: Side,
    shares: u64,
    cost: u64,
    ts: u64,
) -> TradeView {
    TradeView {
        trade_id: (v.trades.len() + 1) as u64,
        trader: owner,
        outcome: o,
        side,
        shares,
        cost,
        timestamp: ts,
    }
}

/// A buy with a budget: its result and the market after it.
pub open spec fn market_buy(
    v: MarketView,
    owner: Seq<char>,
    o: Outcome,
    max_cost: u64,
    ts: u64,
) -> (Result<u64, MarketError>, MarketView) {
    let n = affordable_shares(v.pool_of(o), v.other_of(o), max_cost);
    if v.resolution is Some {
        (Err(MarketError::MarketAlreadyResolved), v)
    } else if n == 0 {
        (Ok(0), v)
    } else if !log_has_room(v.trades.len()) {
        (Err(MarketError::Overflow), v)
    } else if buy_error(v, owner, o, n) is Some {
        (Err(buy_error(v, owner, o, n)->0), v)
    } else {
        let cost = buy_cost_of(v.pool_of(o), v.other_of(o), n);
        let after = after_buy(v, owner, o, n);
        (
            Ok(n),
            MarketView {
                trades: v.trades.push(next_entry(v, owner, o, Side::Buy, n, cost, ts)),
                ..after
            },
        )
    }
}

/// A sell: its result and the market after it.
pub open spec fn market_sell(
    v: MarketView,
    owner: Seq<char>,
    o: Outcome,
    shares: u64,
    ts: u64,
) -> (Result<u64, MarketError>, MarketView) {
    if v.resolution is Some {
        (Err(MarketError::MarketAlreadyResolved), v)
    } else if !log_has_room(v.trades.len()) {
        (Err(MarketError::Overflow), v)
    } else if sell_error(v, owner, o, shares) is Some {
        (Err(sell_error(v, owner, o, shares)->0), v)
    } else {
        let proceeds = sell_proceeds_of(v.pool_of(o), v.other_of(o), shares);
        let after = after_sell(v, owner, o, shares);
        (
            Ok(proceeds),
            MarketView {
                trades: v.trades.push(next_entry(v, owner, o, Side::Sell, shares, proceeds, ts)),
                ..after
            },
        )
    }
}

/// Whether `resolver` may resolve a market whose designated resolver is
/// `designated`; anyone may where none is designated.
pub open spec fn may_resolve(designated: Option<Seq<char>>, resolver: Seq<char>) -> bool {
    match designated {
        Some(d) => d == resolver,
        None => true,
    }
}

/// A resolution: it is taken once, from the designated resolver if there
/// is one, and refused after that.
pub open spec fn market_resolve(
    v: MarketView,
    designated: Option<Seq<char>>,
    resolver: Seq<char>,
    w: WinningOutcome,
    ts: u64,
) -> (Result<(), MarketError>, MarketView) {
    if v.resolution is Some {
        (Err(MarketError::MarketAlreadyResolved), v)
    } else if !may_resolve(designated, resolver) {
        (Err(MarketError::Unauthorized), v)
    } else {
        (
            Ok(()),
            MarketView {
                resolution: Some(
                    ResolutionView { resolved_at: ts, winning_outcome: w, resolver },
                ),
                ..v
            },
        )
    }
}

/// What a holding pays out: one unit per winning share, both sides for an
/// invalid market.
pub open spec fn payout_of(h: Holding, w: WinningOutcome) -> int {
    match w {
        WinningOutcome::Yes => h.yes_shares as int,
        WinningOutcome::No => h.no_shares as int,
        WinningOutcome::Invalid => h.yes_shares + h.no_shares,
    }
}

/// A claim: it pays the holding out and removes the position.
pub open spec fn market_claim(v: MarketView, owner: Seq<char>) -> (
    Result<u64, MarketError>,
    MarketView,
) {
    match v.resolution {
        None => (Err(MarketError::MarketNotResolved), v),
        Some(res) => {
            let payout = payout_of(v.holding_of(owner), res.winning_outcome);
            if payout > u64::MAX {
                (Err(MarketError::Overflow), v)
            } else {
                (Ok(payout as u64), MarketView { positions: v.positions.remove(owner), ..v })
            }
        },
    }
}

/// The outcome that a resolution text names: `"Yes"`, `"No"` or
/// `"Invalid"`; any other text names none.
pub open spec fn winning_outcome_of(s: Seq<char>) -> Option<WinningOutcome> {
    if s == seq!['Y', 'e', 's'] {
        Some(WinningOutcome::Yes)
    } else if s == seq!['N', 'o'] {
        Some(WinningOutcome::No)
    } else if s == seq!['I', 'n', 'v', 'a', 'l', 'i', 'd'] {
        Some(WinningOutcome::Invalid)
    } else {
        None
    }
}

/// The text of an amount result.
pub open spec fn amount_reply(r: Result<u64, MarketError>) -> Result<Seq<char>, MarketError> {
    match r {
        Ok(n) => Ok(decimal_text(n as nat)),
        Err(e) => Err(e),
    }
}

/// An operation as it arrives: its reply and the market after it.
pub open spec fn market_operation(
    v: MarketView,
    designated: Option<Seq<char>>,
    owner: Seq<char>,
    ts: u64,
    op: Operation,
) -> (Result<Seq<char>, MarketError>, MarketView) {
    match op {
        Operation::Buy { outcome, max_cost } => if v.resolution is Some {
            (Err(MarketError::MarketAlreadyResolved), v)
        } else {
            match decimal_value(max_cost@) {
                None => (Err(MarketError::InvalidAmount), v),
                Some(m) => {
                    let (r, after) = market_buy(v, owner, outcome, m, ts);
                    (amount_reply(r), after)
                },
            }
        },
        Operation::Sell { outcome, shares } => if v.resolution is Some {
            (Err(MarketError::MarketAlreadyResolved), v)
        } else {
            match decimal_value(shares@) {
                None => (Err(MarketError::InvalidAmount), v),
                Some(n) => {
                    let (r, after) = market_sell(v, owner, outcome, n, ts);
                    (amount_reply(r), after)
                },
            }
        },
        Operation::Resolve { winning_outcome } => if v.resolution is Some {
            (Err(MarketError::MarketAlreadyResolved), v)
        } else {
            match winning_outcome_of(winning_outcome@) {
                None => (Err(MarketError::InvalidOutcome), v),
                Some(w) => {
                    let (r, after) = market_resolve(v, designated, owner, w, ts);
                    match r {
                        Ok(_) => (Ok(seq!['R', 'e', 's', 'o', 'l', 'v', 'e', 'd']), after),
                        Err(e) => (Err(e), after),
                    }
                },
            }
        },
        Operation::Claim => {
            let (r, after) = market_claim(v, owner);
            (amount_reply(r), after)
        },
    }
}

/// The outcome that a resolution text names: `"Yes"`, `"No"` or
/// `"Invalid"`, and `None` for any other text.
pub fn parse_winning_outcome(s: &String) -> (w: Option<WinningOutcome>)
    ensures
        w == winning_outcome_of(s@),
{
    proof {
        reveal_strlit("Yes");
        reveal_strlit("No");
        reveal_strlit("Invalid");
        assert("Yes"@ =~= seq!['Y', 'e', 's']);
        assert("No"@ =~= seq!['N', 'o']);
        assert("Invalid"@ =~= seq!['I', 'n', 'v', 'a', 'l', 'i', 'd']);
    }
    if text_is(s, "Yes") {
        Some(WinningOutcome::Yes)
    } else if text_is(s, "No") {
        Some(WinningOutcome::No)
    } else if text_is(s, "Invalid") {
        Some(WinningOutcome::Invalid)
    } else {
        None
    }
}

/// The outcome that a query text names: `"Yes"`, and `No` for any other text.
pub open spec fn query_outcome_of(s: Seq<char>) -> Outcome {
    if s == seq!['Y', 'e', 's'] {
        Outcome::Yes
    } else {
        Outcome::No
    }
}

/// The amount that a query text names, zero where it names none.
pub open spec fn amount_or_zero(s: Seq<char>) -> u64 {
    match decimal_value(s) {
        Some(n) => n,
        None => 0,
    }
}

/// The outcome that a query text names: `"Yes"`, and `No` for any other text.
pub fn parse_outcome(s: &String) -> (o: Outcome)
    ensures
        o == query_outcome_of(s@),
{
    proof {
        reveal_strlit("Yes");
        assert("Yes"@ =~= seq!['Y', 'e', 's']);
    }
    if text_is(s, "Yes") {
        Outcome::Yes
    } else {
        Outcome::No
    }
}

/// A buy never raises the product of the pools, and rounding takes less
/// from it than the size of the traded pool after the buy.
pub proof fn lemma_buy_keeps_product(
    v: MarketView,
    owner: Seq<char>,
    o: Outcome,
    max_cost: u64,
    ts: u64,
)
    requires
        v.yes_pool > 0,
        v.no_pool > 0,
    ensures
        ({
            let after = market_buy(v, owner, o, max_cost, ts).1;
            &&& after.yes_pool > 0
            &&& after.no_pool > 0
            &&& after.pool_product() <= v.pool_product()
            &&& v.pool_product() - after.pool_product() < after.pool_of(o)
        }),
{
    let after = market_buy(v, owner, o, max_cost, ts).1;
    let p = v.pool_of(o);
    let q = v.other_of(o);
    let n = affordable_shares(p, q, max_cost);
    assert(v.pool_product() == product(p, q)) by {
        lemma_product_symmetric(v.yes_pool, v.no_pool);
    }
    if after != v {
        lemma_other_after_buy_bounds(p, q, n);
        assert(after.pool_of(o) == p - n);
        assert(after.other_of(o) == other_after_buy(p, q, n));
        assert(after.pool_product() == product(after.pool_of(o), after.other_of(o))) by {
            lemma_product_symmetric(after.yes_pool, after.no_pool);
        }
    }
}

/// A sell never lowers the product of the pools, and rounding adds less
/// to it than the size of the traded pool after the sell.
pub proof fn lemma_sell_keeps_product(
    v: MarketView,
    owner: Seq<char>,
    o: Outcome,
    shares: u64,
    ts: u64,
)
    requires
        v.yes_pool > 0,
        v.no_pool > 0,
    ensures
        ({
            let after = market_sell(v, owner, o, shares, ts).1;
            &&& after.yes_pool > 0
            &&& after.no_pool > 0
            &&& after.pool_product() >= v.pool_product()
            &&& after.pool_product() - v.pool_product() < after.pool_of(o)
        }),
{
    let after = market_sell(v, owner, o, shares, ts).1;
    let p = v.pool_of(o);
    let q = v.other_of(o);
    assert(v.pool_product() == product(p, q)) by {
        lemma_product_symmetric(v.yes_pool, v.no_pool);
    }
    if after != v {
        lemma_other_after_sell_bounds(p, q, shares);
        assert(after.pool_of(o) == p + shares);
        assert(after.other_of(o) == other_after_sell(p, q, shares));
        assert(after.pool_product() == product(after.pool_of(o), after.other_of(o))) by {
            lemma_product_symmetric(after.yes_pool, after.no_pool);
        }
    }
}

/// Buying `n` shares and selling them straight back: the sell goes
/// through, and it returns no more than the buy cost.
pub proof fn lemma_buy_then_sell_back(v: MarketView, owner: Seq<char>, o: Outcome, n: u64)
    requires
        v.yes_pool > 0,
        v.no_pool > 0,
        buy_error(v, owner, o, n) is None,
    ensures
        ({
            let cost = buy_cost_of(v.pool_of(o), v.other_of(o), n);
            let bought = after_buy(v, owner, o, n);
            &&& sell_error(bought, owner, o, n) is None
            &&& sell_proceeds_of(bought.pool_of(o), bought.other_of(o), n) <= cost
        }),
{
    let p = v.pool_of(o);
    let q = v.other_of(o);
    lemma_round_trip(p, q, n);
    lemma_other_after_buy_bounds(p, q, n);
    let bought = after_buy(v, owner, o, n);
    assert(bought.pool_of(o) == p - n);
    assert(bought.other_of(o) == q + buy_cost_of(p, q, n));
    lemma_other_after_sell_bounds(bought.pool_of(o), bought.other_of(o), n);
}

/// One trade in a sequence: a buy with a budget of `amount`, or a sell of
/// `amount` shares.
pub struct TradeStep {
    pub owner: Seq<char>,
    pub outcome: Outcome,
    pub is_buy: bool,
    pub amount: u64,
    pub timestamp: u64,
}

/// The market after one trade, refused or not.
pub open spec fn after_step(v: MarketView, step: TradeStep) -> MarketView {
    if step.is_buy {
        market_buy(v, step.owner, step.outcome, step.amount, step.timestamp).1
    } else {
        market_sell(v, step.owner, step.outcome, step.amount, step.timestamp).1
    }
}

/// The market after a sequence of trades, in order.
pub open spec fn after_steps(v: MarketView, steps: Seq<TradeStep>) -> MarketView
    decreases steps.len(),
{
    if steps.len() == 0 {
        v
    } else {
        after_step(after_steps(v, steps.drop_last()), steps.last())
    }
}

/// Over any sequence of buys and sells, both pools stay positive, so the
/// bounds of the two lemmas above apply at every step: a buy lowers the
/// product of the pools by less than the traded pool after it, a sell
/// raises it by less than the traded pool after it.
pub proof fn lemma_trades_keep_pools_positive(v: MarketView, steps: Seq<TradeStep>)
    requires
        v.yes_pool > 0,
        v.no_pool > 0,
    ensures
        after_steps(v, steps).yes_pool > 0,
        after_steps(v, steps).no_pool > 0,
    decreases steps.len(),
{
    if steps.len() > 0 {
        let before = after_steps(v, steps.drop_last());
        lemma_trades_keep_pools_positive(v, steps.drop_last());
        let step = steps.last();
        if step.is_buy {
            lemma_buy_keeps_product(before, step.owner, step.outcome, step.amount, step.timestamp);
        } else {
            lemma_sell_keeps_product(before, step.owner, step.outcome, step.amount, step.timestamp);
        }
    }
}

proof fn lemma_product_symmetric(a: u64, b: u64)
    ensures
        product(a, b) == product(b, a),
{
    assert(a as int * b as int == b as int * a as int) by (nonlinear_arith);
}

/// A market resolves once: a resolve that an open market accepts records
/// its outcome, and once a resolution stands, a further resolve is refused
/// and leaves the market, and its resolution, as they were.
pub proof fn lemma_resolve_once(
    v: MarketView,
    designated: Option<Seq<char>>,
    first_resolver: Seq<char>,
    first: WinningOutcome,
    first_ts: u64,
    second_resolver: Seq<char>,
    second: WinningOutcome,
    second_ts: u64,
)
    ensures
        ({
            let once = market_resolve(v, designated, first_resolver, first, first_ts);
            let twice = market_resolve(once.1, designated, second_resolver, second, second_ts);
            &&& v.resolution is None && may_resolve(designated, first_resolver) ==> once.0 is Ok
                && once.1.resolution == Some(
                ResolutionView {
                    resolved_at: first_ts,
                    winning_outcome: first,
                    resolver: first_resolver,
                },
            )
            &&& once.1.resolution is Some ==> twice.0 == Err::<(), MarketError>(
                MarketError::MarketAlreadyResolved,
            ) && twice.1 == once.1
        }),
{
}

/// Claiming twice pays nothing the second time and changes nothing.
pub proof fn lemma_claim_idempotent(v: MarketView, owner: Seq<char>)
    requires
        market_claim(v, owner).0 is Ok,
    ensures
        ({
            let once = market_claim(v, owner).1;
            market_claim(once, owner) == (Ok::<u64, MarketError>(0), once)
        }),
{
    let once = market_claim(v, owner).1;
    assert(!once.positions.contains_key(owner));
    assert(once.positions.remove(owner) =~= once.positions);
}

impl MarketEngineState {
    /// The position of `owner`, if it has one.
    pub fn position(&self, owner: &String) -> (r: Option<Position>)
        requires
            self.wf(),
        ensures
            r is Some <==> self@.positions.contains_key(owner@),
            r matches Some(p) ==> p.owner@ == owner@ && p.holding() == self@.positions[owner@],
    {
        self.positions.lookup(owner)
    }

    /// The cost of buying, quoted from text: `outcome` is `"Yes"` or taken
    /// as `No`, and `shares` that is not an amount counts as zero.
    pub fn quote_buy_cost(&self, outcome: &String, shares: &String) -> (r: String)
        ensures
            r@ == decimal_text(
                buy_cost_of(
                    self@.pool_of(query_outcome_of(outcome@)),
                    self@.other_of(query_outcome_of(outcome@)),
                    amount_or_zero(shares@),
                ) as nat,
            ),
    {
        let o = parse_outcome(outcome);
        let n = match parse_amount(shares) {
            Some(n) => n,
            None => 0,
        };
        amount_text(self.calculate_buy_cost(o, n))
    }

    /// The proceeds of selling, quoted from text as `quote_buy_cost` reads it.
    pub fn quote_sell_proceeds(&self, outcome: &String, shares: &String) -> (r: String)
        requires
            self.wf(),
        ensures
            r@ == decimal_text(
                sell_proceeds_of(
                    self@.pool_of(query_outcome_of(outcome@)),
                    self@.other_of(query_outcome_of(outcome@)),
                    amount_or_zero(shares@),
                ) as nat,
            ),
    {
        let o = parse_outcome(outcome);
        let n = match parse_amount(shares) {
            Some(n) => n,
            None => 0,
        };
        amount_text(self.calculate_sell_proceeds(o, n))
    }
}

/// The market and the operations that it takes.
pub struct MarketEngineContract {
    state: MarketEngineState,
    /// Who may resolve the market; anyone where this is `None`.
    resolver: Option<String>,
}

impl MarketEngineContract {
    /// The market that this contract holds.
    pub closed spec fn market(&self) -> MarketView {
        self.state@
    }

    pub closed spec fn wf(&self) -> bool {
        self.state.wf()
    }

    pub closed spec fn designated(&self) -> Option<Seq<char>> {
        match self.resolver {
            Some(r) => Some(r@),
            None => None,
        }
    }

    /// A fresh, open market with equal pools.
    pub fn instantiate() -> (c: MarketEngineContract)
        ensures
            c.wf(),
            c.designated() is None,
            c.market().yes_pool == crate::market::INITIAL_LIQUIDITY,
            c.market().no_pool == crate::market::INITIAL_LIQUIDITY,
            c.market().total_volume == 0,
            c.market().positions == Map::<Seq<char>, Holding>::empty(),
            c.market().resolution is None,
            c.market().trades == Seq::<TradeView>::empty(),
    {
        MarketEngineContract { state: MarketEngineState::new(), resolver: None }
    }

    /// A fresh, open market that only `resolver` may resolve.
    pub fn with_resolver(resolver: String) -> (c: MarketEngineContract)
        ensures
            c.wf(),
            c.designated() == Some(resolver@),
            c.market().yes_pool == crate::market::INITIAL_LIQUIDITY,
            c.market().no_pool == crate::market::INITIAL_LIQUIDITY,
            c.market().total_volume == 0,
            c.market().positions == Map::<Seq<char>, Holding>::empty(),
            c.market().resolution is None,
            c.market().trades == Seq::<TradeView>::empty(),
    {
        MarketEngineContract { state: MarketEngineState::new(), resolver: Some(resolver) }
    }

    /// A contract over `state`, which must be open, resolved by `resolver`
    /// where one is given and by anyone otherwise.
    pub fn from_state(state: MarketEngineState, resolver: Option<String>) -> (c:
        MarketEngineContract)
        requires
            state.wf(),
            state@.resolution is None,
        ensures
            c.wf(),
            c.market() == state@,
            c.designated() == match resolver {
                Some(r) => Some(r@),
                None => None::<Seq<char>>,
            },
    {
        MarketEngineContract { state, resolver }
    }

    /// The market's state, to read.
    pub fn state(&self) -> (s: &MarketEngineState)
        requires
            self.wf(),
        ensures
            s.wf(),
            s@ == self.market(),
    {
        &self.state
    }

    /// Buys for `owner` as many shares of `outcome` as `max_cost` pays for,
    /// up to `SHARE_CAP`, and returns how many were filled.
    pub fn buy(&mut self, owner: &String, outcome: Outcome, max_cost: u64, timestamp: u64) -> (r:
        Result<u64, MarketError>)
        requires
            old(self).wf(),
        ensures
            final(self).wf(),
            final(self).designated() == old(self).designated(),
            (r, final(self).market()) == market_buy(
                old(self).market(),
                owner@,
                outcome,
                max_cost,
                timestamp,
            ),
    {
        if self.state.resolution.is_some() {
            return Err(MarketError::MarketAlreadyResolved);
        }
        let pool = self.state.pool_of(outcome);
        let other = self.state.other_of(outcome);
        let n = max_affordable(pool, other, max_cost);
        proof {
            lemma_affordable_shares(pool, other, max_cost, n);
        }
        if n == 0 {
            return Ok(0);
        }
        if !self.state.trades.has_room() {
            return Err(MarketError::Overflow);
        }
        let ghost before = self.state@;
        match self.state.buy(owner, outcome, n) {
            Err(e) => Err(e),
            Ok(cost) => {
                self.state.trades.record(owner, outcome, Side::Buy, n, cost, timestamp);
                assert(self.state@ == MarketView {
                    trades: before.trades.push(
                        next_entry(before, owner@, outcome, Side::Buy, n, cost, timestamp),
                    ),
                    ..after_buy(before, owner@, outcome, n)
                });
                Ok(n)
            },
        }
    }

    /// Sells `shares` shares of `outcome` that `owner` holds and returns
    /// the proceeds.
    pub fn sell(&mut self, owner: &String, outcome: Outcome, shares: u64, timestamp: u64) -> (r:
        Result<u64, MarketError>)
        requires
            old(self).wf(),
        ensures
            final(self).wf(),
            final(self).designated() == old(self).designated(),
            (r, final(self).market()) == market_sell(
                old(self).market(),
                owner@,
                outcome,
                shares,
                timestamp,
            ),
    {
        if self.state.resolution.is_some() {
            return Err(MarketError::MarketAlreadyResolved);
        }
        if !self.state.trades.has_room() {
            return Err(MarketError::Overflow);
        }
        let ghost before = self.state@;
        match self.state.sell(owner, outcome, shares) {
            Err(e) => Err(e),
            Ok(proceeds) => {
                self.state.trades.record(owner, outcome, Side::Sell, shares, proceeds, timestamp);
                assert(self.state@ == MarketView {
                    trades: before.trades.push(
                        next_entry(before, owner@, outcome, Side::Sell, shares, proceeds, timestamp),
                    ),
                    ..after_sell(before, owner@, outcome, shares)
                });
                Ok(proceeds)
            },
        }
    }

    /// Resolves the market to `winning_outcome`, once.
    pub fn resolve(&mut self, resolver: &String, winning_outcome: WinningOutcome, timestamp: u64) -> (r:
        Result<(), MarketError>)
        requires
            old(self).wf(),
        ensures
            final(self).wf(),
            final(self).designated() == old(self).designated(),
            (r, final(self).market()) == market_resolve(
                old(self).market(),
                old(self).designated(),
                resolver@,
                winning_outcome,
                timestamp,
            ),
    {
        if self.state.resolution.is_some() {
            return Err(MarketError::MarketAlreadyResolved);
        }
        match &self.resolver {
            Some(designated) => {
                if *designated != *resolver {
                    return Err(MarketError::Unauthorized);
                }
            },
            None => {},
        }
        self.state.resolution = Some(
            Resolution { resolved_at: timestamp, winning_outcome, resolver: resolver.clone() },
        );
        Ok(())
    }

    /// Pays out what `owner` holds in a resolved market and removes the
    /// position.
    pub fn claim(&mut self, owner: &String) -> (r: Result<u64, MarketError>)
        requires
            old(self).wf(),
        ensures
            final(self).wf(),
            final(self).designated() == old(self).designated(),
            (r, final(self).market()) == market_claim(old(self).market(), owner@),
    {
        let winning = match &self.state.resolution {
            None => {
                return Err(MarketError::MarketNotResolved);
            },
            Some(res) => res.winning_outcome,
        };
        let pos = self.state.get_position(owner);
        let payout = match winning {
            WinningOutcome::Yes => pos.yes_shares,
            WinningOutcome::No => pos.no_shares,
            WinningOutcome::Invalid => {
                if pos.yes_shares > u64::MAX - pos.no_shares {
                    return Err(MarketError::Overflow);
                }
                pos.yes_shares + pos.no_shares
            },
        };
        self.state.positions.remove(owner);
        Ok(payout)
    }

    /// Runs `operation` for `owner` at `timestamp` and returns its reply:
    /// the shares filled, the proceeds, `"Resolved"`, or the payout.
    pub fn execute_operation(&mut self, owner: &String, timestamp: u64, operation: Operation) -> (r:
        Result<String, MarketError>)
        requires
            old(self).wf(),
        ensures
            final(self).wf(),
            final(self).designated() == old(self).designated(),
            ({
                let (reply, after) = market_operation(
                    old(self).market(),
                    old(self).designated(),
                    owner@,
                    timestamp,
                    operation,
                );
                &&& final(self).market() == after
                &&& match reply {
                    Ok(s) => r is Ok && r->Ok_0@ == s,
                    Err(e) => r == Err::<String, MarketError>(e),
                }
            }),
    {
        match operation {
            Operation::Buy { outcome, max_cost } => {
                if self.state.resolution.is_some() {
                    return Err(MarketError::MarketAlreadyResolved);
                }
                match parse_amount(&max_cost) {
                    None => Err(MarketError::InvalidAmount),
                    Some(m) => match self.buy(owner, outcome, m, timestamp) {
                        Ok(n) => Ok(amount_text(n)),
                        Err(e) => Err(e),
                    },
                }
            },
            Operation::Sell { outcome, shares } => {
                if self.state.resolution.is_some() {
                    return Err(MarketError::MarketAlreadyResolved);
                }
                match parse_amount(&shares) {
                    None => Err(MarketError::InvalidAmount),
                    Some(n) => match self.sell(owner, outcome, n, timestamp) {
                        Ok(p) => Ok(amount_text(p)),
                        Err(e) => Err(e),
                    },
                }
            },
            Operation::Resolve { winning_outcome } => {
                if self.state.resolution.is_some() {
                    return Err(MarketError::MarketAlreadyResolved);
                }
                let w = match parse_winning_outcome(&winning_outcome) {
                    Some(w) => w,
                    None => {
                        return Err(MarketError::InvalidOutcome);
                    },
                };
                match self.resolve(owner, w, timestamp) {
                    Ok(()) => {
                        let reply = String::from_str("Resolved");
                        proof {
                            reveal_strlit("Resolved");
                            assert(reply@ =~= seq!['R', 'e', 's', 'o', 'l', 'v', 'e', 'd']);
                        }
                        Ok(reply)
                    },
                    Err(e) => Err(e),
                }
            },
            Operation::Claim => match self.claim(owner) {
                Ok(p) => Ok(amount_text(p)),
                Err(e) => Err(e),
            },
        }
    }
}

} // verus!
