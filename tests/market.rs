use arcade_markets::engine::{parse_outcome, parse_winning_outcome, MarketEngineContract, Operation};
use arcade_markets::market::{MarketEngineState, MarketError, Outcome, WinningOutcome, INITIAL_LIQUIDITY};
use arcade_markets::positions::Holding;
use arcade_markets::pricing::{buy_cost, max_affordable, sell_proceeds, SHARE_CAP};
use arcade_markets::text::{amount_text, parse_amount, text_is};
use arcade_markets::trades::Side;

fn trader(name: &str) -> String {
    name.to_string()
}

fn market_holding(yes: u64, no: u64, holders: &[(&str, u64, u64)]) -> MarketEngineContract {
    let mut s = MarketEngineState::new();
    s.yes_pool = yes;
    s.no_pool = no;
    for &(owner, y, n) in holders {
        s.positions.set(&trader(owner), Holding { yes_shares: y, no_shares: n, total_invested: 0 });
    }
    MarketEngineContract::from_state(s, None)
}

fn market_with(yes: u64, no: u64) -> MarketEngineContract {
    market_holding(yes, no, &[])
}

#[test]
fn fresh_market_has_equal_pools() {
    let m = MarketEngineContract::instantiate();
    assert_eq!(m.state().yes_pool, INITIAL_LIQUIDITY);
    assert_eq!(m.state().no_pool, INITIAL_LIQUIDITY);
    assert_eq!(m.state().total_volume, 0);
    assert!(m.state().resolution.is_none());
    assert_eq!(m.state().trades.next_trade_id(), 1);
    assert_eq!(m.state().implied_probability(Outcome::Yes), (100_000_000, 200_000_000));
}

#[test]
fn buy_thousand_yes_shares_from_initial_pools() {
    let m = MarketEngineContract::instantiate();
    assert_eq!(m.state().calculate_buy_cost(Outcome::Yes, 1000), 1000);
    assert_eq!(buy_cost(100_000_000, 100_000_000, 1000), 1000);

    let mut m = m;
    let filled = m.buy(&trader("alice"), Outcome::Yes, 1000, 7);
    assert_eq!(filled, Ok(1000));
    assert_eq!(m.state().yes_pool, 99_999_000);
    assert_eq!(m.state().no_pool, 100_001_000);
    assert_eq!(m.state().total_volume, 1000);
    let pos = m.state().position(&trader("alice")).unwrap();
    assert_eq!((pos.yes_shares, pos.no_shares, pos.total_invested), (1000, 0, 1000));
    let log = m.state().trades.list();
    assert_eq!(log.len(), 1);
    assert_eq!(log[0].trade_id, 1);
    assert_eq!(log[0].trader, "alice");
    assert_eq!(log[0].side, Side::Buy);
    assert_eq!((log[0].shares, log[0].cost, log[0].timestamp), (1000, 1000, 7));
}

#[test]
fn claim_yes_pays_yes_shares_once() {
    let mut m = market_holding(99_000_000, 101_000_000, &[("bob", 500, 200)]);
    assert_eq!(m.resolve(&trader("oracle"), WinningOutcome::Yes, 10), Ok(()));
    assert_eq!(m.claim(&trader("bob")), Ok(500));
    assert!(m.state().position(&trader("bob")).is_none());
    assert_eq!(m.claim(&trader("bob")), Ok(0));
    assert_eq!(m.state().yes_pool, 99_000_000);
    assert_eq!(m.state().no_pool, 101_000_000);
}

#[test]
fn claim_no_pays_no_shares() {
    let mut m = market_holding(INITIAL_LIQUIDITY, INITIAL_LIQUIDITY, &[("bob", 500, 200)]);
    m.resolve(&trader("oracle"), WinningOutcome::No, 10).unwrap();
    assert_eq!(m.claim(&trader("bob")), Ok(200));
}

#[test]
fn claim_invalid_refunds_both_sides() {
    let mut m = market_holding(INITIAL_LIQUIDITY, INITIAL_LIQUIDITY, &[("carol", 300, 400)]);
    m.resolve(&trader("oracle"), WinningOutcome::Invalid, 10).unwrap();
    assert_eq!(m.claim(&trader("carol")), Ok(700));
    assert!(m.state().position(&trader("carol")).is_none());
}

#[test]
fn second_resolve_is_refused_and_keeps_first() {
    let mut m = MarketEngineContract::instantiate();
    assert_eq!(m.resolve(&trader("first"), WinningOutcome::Yes, 5), Ok(()));
    assert_eq!(
        m.resolve(&trader("second"), WinningOutcome::No, 6),
        Err(MarketError::MarketAlreadyResolved)
    );
    let r = m.state().resolution.as_ref().unwrap();
    assert_eq!(r.winning_outcome, WinningOutcome::Yes);
    assert_eq!(r.resolver, "first");
    assert_eq!(r.resolved_at, 5);
}

#[test]
fn trading_after_resolution_is_refused() {
    let mut m = market_holding(INITIAL_LIQUIDITY, INITIAL_LIQUIDITY, &[("dan", 10, 0)]);
    m.resolve(&trader("oracle"), WinningOutcome::Yes, 1).unwrap();
    assert_eq!(m.buy(&trader("dan"), Outcome::Yes, 100, 2), Err(MarketError::MarketAlreadyResolved));
    assert_eq!(m.sell(&trader("dan"), Outcome::Yes, 5, 2), Err(MarketError::MarketAlreadyResolved));
    assert_eq!(m.state().yes_pool, INITIAL_LIQUIDITY);
}

#[test]
fn claim_before_resolution_is_refused() {
    let mut m = market_holding(INITIAL_LIQUIDITY, INITIAL_LIQUIDITY, &[("erin", 10, 0)]);
    assert_eq!(m.claim(&trader("erin")), Err(MarketError::MarketNotResolved));
    assert_eq!(m.state().position(&trader("erin")).unwrap().yes_shares, 10);
}

#[test]
fn selling_more_than_held_is_refused() {
    let mut m = MarketEngineContract::instantiate();
    m.buy(&trader("fay"), Outcome::No, 100, 1).unwrap();
    let held = m.state().position(&trader("fay")).unwrap().no_shares;
    assert_eq!(held, 100);
    assert_eq!(m.sell(&trader("fay"), Outcome::No, 101, 2), Err(MarketError::InsufficientShares));
    assert_eq!(m.state().trades.next_trade_id(), 2);
}

#[test]
fn unlimited_budget_stops_short_of_emptying_the_pool() {
    let mut m = market_with(10, 10);
    assert_eq!(m.buy(&trader("gus"), Outcome::Yes, u64::MAX, 1), Ok(9));
    assert_eq!((m.state().yes_pool, m.state().no_pool), (1, 100));
    let pos = m.state().position(&trader("gus")).unwrap();
    assert_eq!((pos.yes_shares, pos.total_invested), (9, 90));
    let mut m = market_with(10, 10);
    assert_eq!(m.buy(&trader("gus"), Outcome::Yes, u64::MAX - 1, 1), Ok(9));
}

#[test]
fn buy_that_would_empty_the_pool_is_refused() {
    let mut s = MarketEngineState::new();
    s.yes_pool = 10;
    s.no_pool = 10;
    assert_eq!(s.buy(&trader("gus"), Outcome::Yes, 10), Err(MarketError::PoolExhausted));
    assert_eq!((s.yes_pool, s.no_pool), (10, 10));
    assert!(s.position(&trader("gus")).is_none());
}

#[test]
fn invalid_refund_past_sixty_four_bits_is_refused() {
    let mut m = market_holding(INITIAL_LIQUIDITY, INITIAL_LIQUIDITY, &[("hal", u64::MAX, 1)]);
    m.resolve(&trader("oracle"), WinningOutcome::Invalid, 1).unwrap();
    assert_eq!(m.claim(&trader("hal")), Err(MarketError::Overflow));
    assert_eq!(m.state().position(&trader("hal")).unwrap().yes_shares, u64::MAX);
}

#[test]
fn zero_budget_fills_nothing() {
    let mut m = MarketEngineContract::instantiate();
    assert_eq!(m.buy(&trader("ivy"), Outcome::Yes, 0, 1), Ok(0));
    assert_eq!(m.state().yes_pool, INITIAL_LIQUIDITY);
    assert!(m.state().position(&trader("ivy")).is_none());
    assert_eq!(m.state().trades.next_trade_id(), 1);
}

#[test]
fn buy_then_sell_round_trip_on_exact_division() {
    // 50 divides 100 * 100, so the buy loses nothing to rounding.
    let cost = buy_cost(100, 100, 50);
    assert_eq!(cost, 100);
    let proceeds = sell_proceeds(50, 100 + cost, 50);
    assert_eq!(proceeds, 100);
    assert!(proceeds <= cost);
}

#[test]
fn round_trip_never_returns_more_than_cost() {
    // 99 does not divide 100 * 100: the buy rounds the opposite pool down,
    // and the sell rounds it up again, so the rounding stays with the pool.
    let cost = buy_cost(100, 100, 1);
    assert_eq!(cost, 1);
    assert_eq!(sell_proceeds(99, 101, 1), 1);
    let mut m = MarketEngineContract::instantiate();
    assert_eq!(m.buy(&trader("uma"), Outcome::Yes, 1000, 1), Ok(1000));
    assert_eq!(m.sell(&trader("uma"), Outcome::Yes, 1000, 2), Ok(1000));
    for n in [1u64, 7, 999, 12_345] {
        let mut m = MarketEngineContract::instantiate();
        let budget = m.state().calculate_buy_cost(Outcome::No, n);
        assert_eq!(m.buy(&trader("uma"), Outcome::No, budget, 1), Ok(n));
        let back = m.sell(&trader("uma"), Outcome::No, n, 2).unwrap();
        assert!(back <= budget);
    }
}

#[test]
fn round_trip_through_the_market() {
    let mut m = market_with(100, 100);
    assert_eq!(m.buy(&trader("jo"), Outcome::Yes, 100, 1), Ok(50));
    assert_eq!((m.state().yes_pool, m.state().no_pool), (50, 200));
    assert_eq!(m.sell(&trader("jo"), Outcome::Yes, 50, 2), Ok(100));
    assert_eq!((m.state().yes_pool, m.state().no_pool), (100, 100));
    let pos = m.state().position(&trader("jo")).unwrap();
    assert_eq!((pos.yes_shares, pos.total_invested), (0, 0));
    let log = m.state().trades.list();
    assert_eq!(log.len(), 2);
    assert_eq!((log[1].trade_id, log[1].side, log[1].cost), (2, Side::Sell, 100));
}

#[test]
fn buy_cost_rises_with_shares() {
    let mut last = buy_cost(1_000, 5_000, 1);
    for n in 2..50u64 {
        let c = buy_cost(1_000, 5_000, n);
        assert!(c > last);
        last = c;
    }
    assert_eq!(buy_cost(1_000, 5_000, 1_000), u64::MAX);
}

#[test]
fn sell_proceeds_rise_and_stay_below_other_pool() {
    let mut last = sell_proceeds(100, 1_000_000, 0);
    assert_eq!(last, 0);
    for n in 1..50u64 {
        let p = sell_proceeds(100, 1_000_000, n);
        assert!(p > last);
        assert!(p <= 1_000_000);
        last = p;
    }
    assert_eq!(sell_proceeds(100, 1_000_000, u64::MAX - 100), 999_999);
}

#[test]
fn product_moves_by_less_than_the_traded_pool() {
    let mut m = MarketEngineContract::instantiate();
    let k0 = m.state().yes_pool as u128 * m.state().no_pool as u128;
    m.buy(&trader("kim"), Outcome::Yes, 12_345, 1).unwrap();
    let k1 = m.state().yes_pool as u128 * m.state().no_pool as u128;
    assert!(k1 <= k0);
    assert!(k0 - k1 < m.state().yes_pool as u128);
    m.sell(&trader("kim"), Outcome::Yes, 5_000, 2).unwrap();
    let k2 = m.state().yes_pool as u128 * m.state().no_pool as u128;
    assert!(k2 >= k1);
    assert!(k2 - k1 < m.state().yes_pool as u128);
}

#[test]
fn fill_stops_at_share_cap() {
    assert_eq!(max_affordable(u64::MAX / 2, u64::MAX / 2, u64::MAX - 1), SHARE_CAP);
    assert_eq!(max_affordable(100_000_000, 100_000_000, 999), 999);
    assert_eq!(max_affordable(100_000_000, 100_000_000, 0), 0);
}

#[test]
fn sell_returns_proceeds_and_lowers_investment() {
    let mut m = MarketEngineContract::instantiate();
    m.buy(&trader("lee"), Outcome::No, 2_000, 1).unwrap();
    let expected = m.state().calculate_sell_proceeds(Outcome::No, 500);
    let got = m.sell(&trader("lee"), Outcome::No, 500, 2).unwrap();
    assert_eq!(got, expected);
    let pos = m.state().position(&trader("lee")).unwrap();
    assert_eq!(pos.no_shares, 1_500);
    assert_eq!(pos.total_invested, 2_000 - got);
}

#[test]
fn get_position_defaults_to_zero() {
    let s = MarketEngineState::new();
    let p = s.get_position(&trader("nobody"));
    assert_eq!(p.owner, "nobody");
    assert_eq!((p.yes_shares, p.no_shares, p.total_invested), (0, 0, 0));
}

#[test]
fn operations_take_and_give_decimal_text() {
    let mut m = MarketEngineContract::instantiate();
    let me = trader("mo");
    let op = Operation::Buy { outcome: Outcome::Yes, max_cost: "+1000".to_string() };
    assert_eq!(m.execute_operation(&me, 1, op), Ok("1000".to_string()));
    let op = Operation::Sell { outcome: Outcome::Yes, shares: "1000".to_string() };
    let proceeds = m.execute_operation(&me, 2, op).unwrap();
    assert_eq!(proceeds, "1000");
    let op = Operation::Buy { outcome: Outcome::No, max_cost: "12ab".to_string() };
    assert_eq!(m.execute_operation(&me, 3, op), Err(MarketError::InvalidAmount));
    let op = Operation::Sell { outcome: Outcome::No, shares: "".to_string() };
    assert_eq!(m.execute_operation(&me, 3, op), Err(MarketError::InvalidAmount));
    let op = Operation::Claim;
    assert_eq!(m.execute_operation(&me, 4, op), Err(MarketError::MarketNotResolved));
    let op = Operation::Resolve { winning_outcome: "Invalid".to_string() };
    assert_eq!(m.execute_operation(&me, 5, op), Ok("Resolved".to_string()));
    let op = Operation::Buy { outcome: Outcome::No, max_cost: "10".to_string() };
    assert_eq!(m.execute_operation(&me, 6, op), Err(MarketError::MarketAlreadyResolved));
    assert_eq!(m.execute_operation(&me, 7, Operation::Claim), Ok("0".to_string()));
}

#[test]
fn quotes_read_text() {
    let s = MarketEngineState::new();
    assert_eq!(s.quote_buy_cost(&"Yes".to_string(), &"1000".to_string()), "1000");
    assert_eq!(s.quote_buy_cost(&"No".to_string(), &"nonsense".to_string()), "0");
    assert_eq!(
        s.quote_sell_proceeds(&"Yes".to_string(), &"1000".to_string()),
        s.calculate_sell_proceeds(Outcome::Yes, 1000).to_string()
    );
    assert_eq!(s.calculate_sell_proceeds(Outcome::Yes, 1000), 999);
}

#[test]
fn outcome_texts() {
    assert_eq!(parse_winning_outcome(&"Yes".to_string()), Some(WinningOutcome::Yes));
    assert_eq!(parse_winning_outcome(&"No".to_string()), Some(WinningOutcome::No));
    assert_eq!(parse_winning_outcome(&"Invalid".to_string()), Some(WinningOutcome::Invalid));
    assert_eq!(parse_winning_outcome(&"yes".to_string()), None);
    assert_eq!(parse_winning_outcome(&"".to_string()), None);
    assert_eq!(parse_outcome(&"Yes".to_string()), Outcome::Yes);
    assert_eq!(parse_outcome(&"Maybe".to_string()), Outcome::No);
    assert!(text_is(&"abc".to_string(), "abc"));
    assert!(!text_is(&"abc".to_string(), "abd"));
    assert!(!text_is(&"ab".to_string(), "abc"));
}

#[test]
fn implied_probability_follows_pools() {
    let m = market_with(99_000_000, 101_000_000);
    assert_eq!(m.state().implied_probability(Outcome::Yes), (101_000_000, 200_000_000));
    assert_eq!(m.state().implied_probability(Outcome::No), (99_000_000, 200_000_000));
}

#[test]
fn trades_list_newest_first() {
    let mut m = MarketEngineContract::instantiate();
    m.buy(&trader("a"), Outcome::Yes, 10, 5).unwrap();
    m.buy(&trader("b"), Outcome::No, 10, 9).unwrap();
    m.buy(&trader("c"), Outcome::Yes, 10, 5).unwrap();
    m.buy(&trader("d"), Outcome::No, 10, 7).unwrap();
    let ids: Vec<u64> = m.state().trades.newest_first().iter().map(|t| t.trade_id).collect();
    assert_eq!(ids, vec![2, 4, 1, 3]);
    let ids: Vec<u64> = m.state().trades.list().iter().map(|t| t.trade_id).collect();
    assert_eq!(ids, vec![1, 2, 3, 4]);
}

#[test]
fn designated_resolver_alone_may_resolve() {
    let mut m = MarketEngineContract::with_resolver(trader("oracle"));
    assert_eq!(m.resolve(&trader("mallory"), WinningOutcome::No, 1), Err(MarketError::Unauthorized));
    assert!(m.state().resolution.is_none());
    let op = Operation::Resolve { winning_outcome: "Yes".to_string() };
    assert_eq!(m.execute_operation(&trader("mallory"), 2, op), Err(MarketError::Unauthorized));
    assert_eq!(m.resolve(&trader("oracle"), WinningOutcome::Yes, 3), Ok(()));
    assert_eq!(
        m.resolve(&trader("mallory"), WinningOutcome::No, 4),
        Err(MarketError::MarketAlreadyResolved)
    );
    assert_eq!(m.state().resolution.as_ref().unwrap().winning_outcome, WinningOutcome::Yes);
}

#[test]
fn trade_shares_carry_their_sign() {
    let mut m = MarketEngineContract::instantiate();
    m.buy(&trader("sam"), Outcome::Yes, 50, 1).unwrap();
    m.sell(&trader("sam"), Outcome::Yes, 20, 2).unwrap();
    let log = m.state().trades.list();
    assert_eq!(log[0].signed_shares(), 50);
    assert_eq!(log[1].signed_shares(), -20);
}

#[test]
fn unknown_resolution_text_is_refused() {
    let mut m = MarketEngineContract::instantiate();
    let op = Operation::Resolve { winning_outcome: "yes".to_string() };
    assert_eq!(m.execute_operation(&trader("o"), 1, op), Err(MarketError::InvalidOutcome));
    let op = Operation::Resolve { winning_outcome: String::new() };
    assert_eq!(m.execute_operation(&trader("o"), 1, op), Err(MarketError::InvalidOutcome));
    assert!(m.state().resolution.is_none());
    let op = Operation::Resolve { winning_outcome: "No".to_string() };
    assert_eq!(m.execute_operation(&trader("o"), 2, op), Ok("Resolved".to_string()));
    let op = Operation::Resolve { winning_outcome: "bogus".to_string() };
    assert_eq!(m.execute_operation(&trader("o"), 3, op), Err(MarketError::MarketAlreadyResolved));
    assert_eq!(m.state().resolution.as_ref().unwrap().winning_outcome, WinningOutcome::No);
}

#[test]
fn decimal_text_both_ways() {
    assert_eq!(parse_amount(&"18446744073709551615".to_string()), Some(u64::MAX));
    assert_eq!(parse_amount(&"18446744073709551616".to_string()), None);
    assert_eq!(parse_amount(&"99999999999999999999x".to_string()), None);
    assert_eq!(parse_amount(&"+".to_string()), None);
    assert_eq!(parse_amount(&"-5".to_string()), None);
    assert_eq!(parse_amount(&"007".to_string()), Some(7));
    assert_eq!(parse_amount(&"+42".to_string()), Some(42));
    assert_eq!(parse_amount(&" 1".to_string()), None);
    assert_eq!(amount_text(0), "0");
    assert_eq!(amount_text(10), "10");
    assert_eq!(amount_text(u64::MAX), "18446744073709551615");
}
