//! Constant-product pricing: what a buy costs and what a sell returns,
//! given the traded outcome's pool and the opposite pool.
use vstd::prelude::*;

verus! {

/// Largest number of shares that one buy may fill.
pub const SHARE_CAP: u64 = 1_000_000;

/// The constant product `pool * other_pool`.
pub open spec fn product(pool: u64, other_pool: u64) -> int {
    pool as int * other_pool as int
}

/// A buy of `shares` leaves a positive traded pool and an opposite pool
/// that still fits in 64 bits.
pub open spec fn buy_feasible(pool: u64, other_pool: u64, shares: u64) -> bool {
    shares < pool && product(pool, other_pool) / ((pool - shares) as int) <= u64::MAX
}

/// Opposite pool after a buy: the product over the shrunk pool, rounded down.
pub open spec fn other_after_buy(pool: u64, other_pool: u64, shares: u64) -> int {
    product(pool, other_pool) / ((pool - shares) as int)
}

/// Cost of buying `shares`; `u64::MAX` marks a buy that cannot be filled.
pub open spec fn buy_cost_of(pool: u64, other_pool: u64, shares: u64) -> u64 {
    if buy_feasible(pool, other_pool, shares) {
        (other_after_buy(pool, other_pool, shares) - other_pool) as u64
    } else {
        u64::MAX
    }
}

/// Opposite pool after a sell: the product over the grown pool, rounded
/// up, so that the rounding keeps with the pool and never pays the seller.
pub open spec fn other_after_sell(pool: u64, other_pool: u64, shares: u64) -> int {
    (product(pool, other_pool) + (pool + shares) - 1) / (pool + shares)
}

/// What selling `shares` returns.
pub open spec fn sell_proceeds_of(pool: u64, other_pool: u64, shares: u64) -> u64 {
    (other_pool - other_after_sell(pool, other_pool, shares)) as u64
}

/// A buy of `m` shares can be filled and costs at most `max_cost`.
pub open spec fn affordable(pool: u64, other_pool: u64, max_cost: u64, m: u64) -> bool {
    buy_feasible(pool, other_pool, m) && buy_cost_of(pool, other_pool, m) <= max_cost
}

/// The number of shares a buy with budget `max_cost` fills: the largest
/// count up to the cap that can be filled at a cost within the budget.
pub open spec fn fills_exactly(pool: u64, other_pool: u64, max_cost: u64, n: u64) -> bool {
    &&& n <= SHARE_CAP
    &&& forall|m: u64|
        1 <= m <= SHARE_CAP ==> (#[trigger] affordable(pool, other_pool, max_cost, m) <==> m <= n)
}

proof fn lemma_product_fits(pool: u64, other_pool: u64)
    ensures
        0 <= product(pool, other_pool) <= u64::MAX as int * u64::MAX as int,
{
    assert(0 <= pool as int * other_pool as int <= u64::MAX as int * u64::MAX as int)
        by (nonlinear_arith);
}

/// `q` is the rounded-down quotient of `x` by `d` exactly when `d * q`
/// lies in `(x - d, x]`.
proof fn lemma_quotient_bounds(x: int, d: int)
    requires
        0 <= x,
        0 < d,
    ensures
        d * (x / d) <= x,
        x - d * (x / d) < d,
        0 <= x / d,
{
    assert(x == d * (x / d) + x % d) by {
        vstd::arithmetic::div_mod::lemma_fundamental_div_mod(x, d);
    }
    assert(0 <= x % d < d) by {
        vstd::arithmetic::div_mod::lemma_mod_bound(x, d);
    }
    assert(0 <= x / d) by {
        vstd::arithmetic::div_mod::lemma_div_pos_is_pos(x, d);
    }
}

/// `x / d >= q` exactly when `x >= d * q`.
proof fn lemma_quotient_at_least(x: int, d: int, q: int)
    requires
        0 <= x,
        0 < d,
    ensures
        x / d >= q <==> x >= d * q,
{
    lemma_quotient_bounds(x, d);
    let r = x / d;
    if r >= q {
        assert(d * r >= d * q) by (nonlinear_arith)
            requires
                r >= q,
                d > 0,
        ;
    } else {
        assert(d * r + d <= d * q) by (nonlinear_arith)
            requires
                r + 1 <= q,
                d > 0,
        ;
    }
}

/// Bounds on the opposite pool after a buy: it never shrinks, and the new
/// product loses less than one unit of the divisor to rounding.
pub proof fn lemma_other_after_buy_bounds(pool: u64, other_pool: u64, shares: u64)
    requires
        shares < pool,
    ensures
        other_after_buy(pool, other_pool, shares) >= other_pool,
        (pool - shares) * other_after_buy(pool, other_pool, shares) <= product(
            pool,
            other_pool,
        ),
        product(pool, other_pool) - (pool - shares) * other_after_buy(pool, other_pool, shares)
            < pool - shares,
{
    let k = product(pool, other_pool);
    let d = (pool - shares) as int;
    lemma_product_fits(pool, other_pool);
    lemma_quotient_bounds(k, d);
    assert(k >= d * other_pool) by (nonlinear_arith)
        requires
            k == pool as int * other_pool as int,
            0 < d <= pool,
            other_pool >= 0,
    ;
    lemma_quotient_at_least(k, d, other_pool as int);
}

/// Bounds on the opposite pool after a sell: it never grows, and the new
/// product exceeds the old one by less than the grown pool.
pub proof fn lemma_other_after_sell_bounds(pool: u64, other_pool: u64, shares: u64)
    requires
        pool > 0,
    ensures
        0 <= other_after_sell(pool, other_pool, shares) <= other_pool,
        other_pool > 0 ==> other_after_sell(pool, other_pool, shares) > 0,
        (pool + shares) * other_after_sell(pool, other_pool, shares) >= product(
            pool,
            other_pool,
        ),
        (pool + shares) * other_after_sell(pool, other_pool, shares) - product(pool, other_pool)
            < pool + shares,
{
    let k = product(pool, other_pool);
    let d = pool + shares;
    lemma_product_fits(pool, other_pool);
    lemma_ceiling(k, d);
    let c = other_after_sell(pool, other_pool, shares);
    assert(d * other_pool >= k) by (nonlinear_arith)
        requires
            k == pool as int * other_pool as int,
            d >= pool > 0,
            other_pool >= 0,
    ;
    lemma_ceiling_at_most(k, d, other_pool as int);
    if other_pool > 0 {
        assert(k > 0) by (nonlinear_arith)
            requires
                k == pool as int * other_pool as int,
                pool > 0,
                other_pool > 0,
        ;
    }
}

/// `c = (x + d - 1) / d` is the rounded-up quotient: `d * c` lies in
/// `[x, x + d)`, and it is positive where `x` is.
proof fn lemma_ceiling(x: int, d: int)
    requires
        0 <= x,
        0 < d,
    ensures
        d * ((x + d - 1) / d) >= x,
        d * ((x + d - 1) / d) - x < d,
        (x + d - 1) / d >= 0,
        x > 0 ==> (x + d - 1) / d > 0,
{
    lemma_quotient_bounds(x + d - 1, d);
    if x > 0 {
        lemma_quotient_at_least(x + d - 1, d, 1);
    }
}

/// The rounded-up quotient of `x` by `d` is at most `q` when `x <= d * q`.
proof fn lemma_ceiling_at_most(x: int, d: int, q: int)
    requires
        0 <= x,
        0 < d,
        x <= d * q,
    ensures
        (x + d - 1) / d <= q,
{
    lemma_quotient_bounds(x + d - 1, d);
    let c = (x + d - 1) / d;
    if c > q {
        assert(d * c >= d * (q + 1)) by (nonlinear_arith)
            requires
                c >= q + 1,
                d > 0,
        ;
        assert(d * (q + 1) == d * q + d) by (nonlinear_arith);
        assert(false);
    }
}

/// The rounded-up quotient of `x` by `d` is at least `q` when `x > d * (q - 1)`.
proof fn lemma_ceiling_at_least(x: int, d: int, q: int)
    requires
        0 <= x,
        0 < d,
        x > d * (q - 1),
    ensures
        (x + d - 1) / d >= q,
{
    lemma_quotient_at_least(x + d - 1, d, q);
    assert(x + d - 1 >= d * q) by (nonlinear_arith)
        requires
            x > d * (q - 1),
            d > 0,
    ;
}

/// Buy costs never fall as the number of shares grows.
pub proof fn lemma_buy_cost_monotone(pool: u64, other_pool: u64, a: u64, b: u64)
    requires
        a <= b,
    ensures
        buy_cost_of(pool, other_pool, a) <= buy_cost_of(pool, other_pool, b),
{
    if buy_feasible(pool, other_pool, b) {
        let k = product(pool, other_pool);
        lemma_product_fits(pool, other_pool);
        vstd::arithmetic::div_mod::lemma_div_is_ordered_by_denominator(
            k,
            (pool - b) as int,
            (pool - a) as int,
        );
        lemma_other_after_buy_bounds(pool, other_pool, a);
        lemma_other_after_buy_bounds(pool, other_pool, b);
    }
}

/// Buy costs rise strictly from one share to the next while the product
/// covers the rounding, that is `pool * other_pool >= d * (d - 1)` for the
/// pool `d` left after the smaller buy.
pub proof fn lemma_buy_cost_strict(pool: u64, other_pool: u64, n: u64)
    requires
        n + 1 <= u64::MAX,
        buy_feasible(pool, other_pool, (n + 1) as u64),
        product(pool, other_pool) >= (pool - n) * (pool - n - 1),
    ensures
        buy_cost_of(pool, other_pool, n) < buy_cost_of(pool, other_pool, (n + 1) as u64),
{
    let k = product(pool, other_pool);
    let d = (pool - n) as int;
    lemma_product_fits(pool, other_pool);
    lemma_other_after_buy_bounds(pool, other_pool, n);
    lemma_other_after_buy_bounds(pool, other_pool, (n + 1) as u64);
    vstd::arithmetic::div_mod::lemma_div_is_ordered_by_denominator(k, d - 1, d);
    assert(buy_feasible(pool, other_pool, n));
    lemma_quotient_bounds(k, d);
    let q = k / d;
    assert(q == other_after_buy(pool, other_pool, n));
    assert(k / (d - 1) == other_after_buy(pool, other_pool, (n + 1) as u64));
    lemma_quotient_at_least(k, d, d - 1);
    assert(q >= d - 1);
    assert(k >= (q + 1) * (d - 1)) by (nonlinear_arith)
        requires
            d * q <= k,
            q >= d - 1,
            d >= 2,
    ;
    lemma_quotient_at_least(k, d - 1, q + 1);
    assert(k / (d - 1) >= q + 1);
    assert(buy_cost_of(pool, other_pool, n) == q - other_pool);
    assert(buy_cost_of(pool, other_pool, (n + 1) as u64) == k / (d - 1) - other_pool);
}

/// Sell proceeds never fall as the number of shares grows, and never
/// exceed the opposite pool.
pub proof fn lemma_sell_proceeds_monotone(pool: u64, other_pool: u64, a: u64, b: u64)
    requires
        pool > 0,
        a <= b,
    ensures
        sell_proceeds_of(pool, other_pool, a) <= sell_proceeds_of(pool, other_pool, b),
        sell_proceeds_of(pool, other_pool, b) <= other_pool,
{
    let k = product(pool, other_pool);
    let da = pool + a;
    let db = pool + b;
    lemma_product_fits(pool, other_pool);
    lemma_other_after_sell_bounds(pool, other_pool, a);
    lemma_other_after_sell_bounds(pool, other_pool, b);
    let cb = other_after_sell(pool, other_pool, b);
    if cb >= 1 {
        assert(db * (cb - 1) == db * cb - db) by (nonlinear_arith);
        assert(da * (cb - 1) <= db * (cb - 1)) by (nonlinear_arith)
            requires
                da <= db,
                cb >= 1,
        ;
        lemma_ceiling_at_least(k, da, cb);
    }
}

/// Sell proceeds rise strictly from one share to the next while the
/// product covers the rounding, that is `pool * other_pool >= d * (d + 1)`
/// for the pool `d` reached by the smaller sell.
pub proof fn lemma_sell_proceeds_strict(pool: u64, other_pool: u64, n: u64)
    requires
        pool > 0,
        n + 1 <= u64::MAX,
        product(pool, other_pool) >= (pool + n) * (pool + n + 1),
    ensures
        sell_proceeds_of(pool, other_pool, n) < sell_proceeds_of(
            pool,
            other_pool,
            (n + 1) as u64,
        ),
{
    let k = product(pool, other_pool);
    let d = pool + n;
    lemma_product_fits(pool, other_pool);
    lemma_other_after_sell_bounds(pool, other_pool, n);
    lemma_other_after_sell_bounds(pool, other_pool, (n + 1) as u64);
    let c1 = other_after_sell(pool, other_pool, (n + 1) as u64);
    assert((d + 1) * c1 >= k);
    assert((d + 1) * c1 - k < d + 1);
    assert(c1 >= d) by (nonlinear_arith)
        requires
            (d + 1) * c1 >= k,
            k >= d * (d + 1),
            d >= 1,
    ;
    assert(d * c1 < k) by (nonlinear_arith)
        requires
            (d + 1) * c1 - k < d + 1,
            k >= d * (d + 1),
            c1 >= d,
            d >= 1,
    ;
    lemma_ceiling_at_least(k, d, c1 + 1);
}

/// Buying `n` shares and selling them straight back never returns more
/// than the buy cost.
pub proof fn lemma_round_trip(pool: u64, other_pool: u64, n: u64)
    requires
        buy_feasible(pool, other_pool, n),
    ensures
        other_pool + buy_cost_of(pool, other_pool, n) <= u64::MAX,
        sell_proceeds_of(
            (pool - n) as u64,
            (other_pool + buy_cost_of(pool, other_pool, n)) as u64,
            n,
        ) <= buy_cost_of(pool, other_pool, n),
{
    let k = product(pool, other_pool);
    let d = (pool - n) as int;
    lemma_product_fits(pool, other_pool);
    lemma_other_after_buy_bounds(pool, other_pool, n);
    let raised = other_after_buy(pool, other_pool, n);
    let pool_after = (pool - n) as u64;
    let other_after = raised as u64;
    assert(buy_cost_of(pool, other_pool, n) == raised - other_pool);
    lemma_other_after_sell_bounds(pool_after, other_after, n);
    assert(pool_after + n == pool);
    let x = d * raised;
    assert(product(pool_after, other_after) == x);
    assert(x > k - d);
    assert(x > pool * (other_pool - 1)) by (nonlinear_arith)
        requires
            x > k - d,
            k == pool as int * other_pool as int,
            d <= pool,
    ;
    assert(x >= 0) by (nonlinear_arith)
        requires
            x == d * raised,
            d > 0,
            raised >= 0,
    ;
    lemma_ceiling_at_least(x, pool as int, other_pool as int);
}

/// What a buy of `shares` costs, `u64::MAX` where it cannot be filled.
pub fn buy_cost(pool: u64, other_pool: u64, shares: u64) -> (cost: u64)
    ensures
        cost == buy_cost_of(pool, other_pool, shares),
{
    if shares >= pool {
        return u64::MAX;
    }
    proof {
        lemma_product_fits(pool, other_pool);
        lemma_other_after_buy_bounds(pool, other_pool, shares);
    }
    let k: u128 = (pool as u128) * (other_pool as u128);
    let new_pool: u64 = pool - shares;
    let new_other: u128 = k / (new_pool as u128);
    if new_other > u64::MAX as u128 {
        return u64::MAX;
    }
    (new_other as u64) - other_pool
}

/// What a sell of `shares` returns.
pub fn sell_proceeds(pool: u64, other_pool: u64, shares: u64) -> (proceeds: u64)
    requires
        pool > 0,
    ensures
        proceeds == sell_proceeds_of(pool, other_pool, shares),
        proceeds <= other_pool,
{
    proof {
        lemma_product_fits(pool, other_pool);
        lemma_other_after_sell_bounds(pool, other_pool, shares);
    }
    let k: u128 = (pool as u128) * (other_pool as u128);
    let new_pool: u128 = pool as u128 + shares as u128;
    assert(k + new_pool - 1 <= u128::MAX) by (nonlinear_arith)
        requires
            k <= u64::MAX as int * u64::MAX as int,
            new_pool <= 2 * (u64::MAX as int),
    ;
    let new_other: u128 = (k + new_pool - 1) / new_pool;
    other_pool - (new_other as u64)
}

/// A buy can be filled exactly when its quoted cost is below `u64::MAX`.
pub proof fn lemma_feasible_iff_quoted(pool: u64, other_pool: u64, m: u64)
    ensures
        buy_feasible(pool, other_pool, m) <==> buy_cost_of(pool, other_pool, m) < u64::MAX,
{
    if buy_feasible(pool, other_pool, m) {
        lemma_other_after_buy_bounds(pool, other_pool, m);
        if other_pool == 0 {
            assert(product(pool, other_pool) == 0) by (nonlinear_arith)
                requires
                    other_pool == 0,
            ;
            vstd::arithmetic::div_mod::lemma_div_basics((pool - m) as int);
        }
    }
}

/// Buys that can be filled within a budget stay so with fewer shares.
pub proof fn lemma_affordable_downward(pool: u64, other_pool: u64, max_cost: u64, a: u64, b: u64)
    requires
        a <= b,
        affordable(pool, other_pool, max_cost, b),
    ensures
        affordable(pool, other_pool, max_cost, a),
{
    lemma_buy_cost_monotone(pool, other_pool, a, b);
    lemma_feasible_iff_quoted(pool, other_pool, a);
    lemma_feasible_iff_quoted(pool, other_pool, b);
}

/// The number of shares that a budget of `max_cost` buys: the largest
/// count up to `SHARE_CAP` that can be filled at a cost within the budget,
/// found by binary search over the monotone cost curve. The `u64::MAX`
/// quote of a buy that cannot be filled never counts as affordable.
pub fn max_affordable(pool: u64, other_pool: u64, max_cost: u64) -> (n: u64)
    ensures
        fills_exactly(pool, other_pool, max_cost, n),
{
    let mut lo: u64 = 0;
    let mut hi: u64 = SHARE_CAP;
    while lo < hi
        invariant
            lo <= hi <= SHARE_CAP,
            lo == 0 || affordable(pool, other_pool, max_cost, lo),
            hi == SHARE_CAP || !affordable(pool, other_pool, max_cost, (hi + 1) as u64),
        decreases hi - lo,
    {
        let mid: u64 = lo + (hi - lo + 1) / 2;
        let cost = buy_cost(pool, other_pool, mid);
        proof {
            lemma_feasible_iff_quoted(pool, other_pool, mid);
        }
        if cost < u64::MAX && cost <= max_cost {
            lo = mid;
        } else {
            hi = mid - 1;
        }
    }
    proof {
        assert forall|m: u64| 1 <= m <= SHARE_CAP implies (#[trigger] affordable(
            pool,
            other_pool,
            max_cost,
            m,
        ) <==> m <= lo) by {
            if m <= lo {
                lemma_affordable_downward(pool, other_pool, max_cost, m, lo);
            } else if affordable(pool, other_pool, max_cost, m) {
                lemma_affordable_downward(pool, other_pool, max_cost, (lo + 1) as u64, m);
            }
        }
    }
    lo
}

} // verus!
