use prediction_market::arith::mul_div;
use prediction_market::errors::MarketError;
use prediction_market::market::PredictionMarket;
use prediction_market::market::State;

const ORACLE: u64 = 1;
const FACTORY: u64 = 2;
const NOW: u64 = 1_000;

fn new_market(ids: Vec<u64>, titles: Vec<&str>) -> PredictionMarket {
    let titles: Vec<String> = titles.into_iter().map(|t| t.to_string()).collect();
    PredictionMarket::initialize(
        ids,
        "Which livestream will win?".to_string(),
        titles,
        ORACLE,
        FACTORY,
        NOW,
    )
    .expect("valid market inputs")
}

#[test]
fn test_initialize() {
    let m = new_market(vec![1, 2], vec!["Livestream 1", "Livestream 2"]);
    let (ids, question, state, winning_id, total_pool, total_bettors) = m.get_market_info();
    assert_eq!(ids.len(), 2);
    assert_eq!(question, "Which livestream will win?".to_string());
    assert_eq!(state, State::Open);
    assert_eq!(winning_id, 0);
    assert_eq!(total_pool, 0);
    assert_eq!(total_bettors, 0);
}

#[test]
fn initialize_rejects_mismatched_lengths() {
    let r = PredictionMarket::initialize(
        vec![1, 2],
        "q".to_string(),
        vec!["only one".to_string()],
        ORACLE,
        FACTORY,
        NOW,
    );
    assert_eq!(r.err(), Some(MarketError::ValidationError));
}

#[test]
fn initialize_rejects_zero_and_duplicate_ids() {
    let r = PredictionMarket::initialize(
        vec![1, 0],
        "q".to_string(),
        vec!["a".to_string(), "b".to_string()],
        ORACLE,
        FACTORY,
        NOW,
    );
    assert_eq!(r.err(), Some(MarketError::ValidationError));
    let r = PredictionMarket::initialize(
        vec![7, 7],
        "q".to_string(),
        vec!["a".to_string(), "b".to_string()],
        ORACLE,
        FACTORY,
        NOW,
    );
    assert_eq!(r.err(), Some(MarketError::ValidationError));
}

#[test]
fn payout_splits_whole_pool_exactly() {
    // Outcome 1 carries 100 and 300; outcome 2 carries 600; pool 1000.
    let mut m = new_market(vec![1, 2], vec!["A", "B"]);
    assert_eq!(m.place_bet(10, 1, 100, NOW), Ok(()));
    assert_eq!(m.place_bet(11, 1, 300, NOW), Ok(()));
    assert_eq!(m.place_bet(12, 2, 600, NOW), Ok(()));
    assert_eq!(m.get_market_info().4, 1000);
    assert_eq!(m.close_market(ORACLE, NOW + 1), Ok(()));
    assert_eq!(m.resolve_market(ORACLE, 1, NOW + 2), Ok(()));
    assert_eq!(m.claim_payout(10), Ok(250));
    assert_eq!(m.claim_payout(11), Ok(750));
    assert_eq!(m.claim_payout(12), Err(MarketError::NoWinningStakeError));
}

#[test]
fn dust_stays_unclaimed() {
    // Stakes 1 and 2 on the winner (total 3), pool 10: payouts 3 and 6.
    let mut m = new_market(vec![1, 2], vec!["A", "B"]);
    assert_eq!(m.place_bet(10, 1, 1, NOW), Ok(()));
    assert_eq!(m.place_bet(11, 1, 2, NOW), Ok(()));
    assert_eq!(m.place_bet(12, 2, 7, NOW), Ok(()));
    assert_eq!(m.close_market(ORACLE, NOW), Ok(()));
    assert_eq!(m.resolve_market(ORACLE, 1, NOW), Ok(()));
    assert_eq!(m.claim_payout(10), Ok(3));
    assert_eq!(m.claim_payout(11), Ok(6));
    // 3 + 6 = 9 < 10: one unit of dust remains in custody by design.
}

#[test]
fn no_double_claim() {
    let mut m = new_market(vec![1], vec!["A"]);
    assert_eq!(m.place_bet(10, 1, 50, NOW), Ok(()));
    assert_eq!(m.close_market(ORACLE, NOW), Ok(()));
    assert_eq!(m.resolve_market(ORACLE, 1, NOW), Ok(()));
    assert_eq!(m.claim_payout(10), Ok(50));
    assert_eq!(m.claim_payout(10), Err(MarketError::NoWinningStakeError));
    assert_eq!(m.get_user_bet(10, 1), 0);
}

#[test]
fn auto_registration_registers_once() {
    let mut m = new_market(vec![1], vec!["A"]);
    assert_eq!(m.place_bet(10, 42, 5, NOW), Ok(()));
    assert_eq!(m.place_bet(11, 42, 6, NOW), Ok(()));
    assert_eq!(m.place_bet(10, 42, 7, NOW), Ok(()));
    let (ids, _, _, _, pool, bettors) = m.get_market_info();
    assert_eq!(ids.iter().filter(|&&x| x == 42).count(), 1);
    assert_eq!(ids, vec![1, 42]);
    assert_eq!(pool, 18);
    assert_eq!(bettors, 2);
    let (amount, percentage, active) = m.get_livestream_bets(42).unwrap();
    assert_eq!(amount, 18);
    assert_eq!(percentage, 100);
    assert!(active);
    assert_eq!(m.livestreams[1].title, "Project #".to_string());
    assert_eq!(m.get_user_bet(10, 42), 12);
}

#[test]
fn resolve_guard_rejects_zero_stake_winner() {
    let mut m = new_market(vec![1, 2], vec!["A", "B"]);
    assert_eq!(m.place_bet(10, 1, 100, NOW), Ok(()));
    assert_eq!(m.close_market(ORACLE, NOW), Ok(()));
    assert_eq!(
        m.resolve_market(ORACLE, 2, NOW),
        Err(MarketError::NoStakeError)
    );
    assert_eq!(
        m.resolve_market(ORACLE, 9, NOW),
        Err(MarketError::NotFoundError)
    );
    assert_eq!(m.resolve_market(ORACLE, 1, NOW), Ok(()));
}

#[test]
fn closed_market_rejects_mutations() {
    let mut m = new_market(vec![1], vec!["A"]);
    assert_eq!(m.place_bet(10, 1, 5, NOW), Ok(()));
    assert_eq!(m.close_market(ORACLE, NOW), Ok(()));
    assert_eq!(m.place_bet(10, 1, 5, NOW), Err(MarketError::StateError));
    assert_eq!(
        m.add_livestream(ORACLE, 3, "C".to_string(), NOW),
        Err(MarketError::StateError)
    );
    assert_eq!(
        m.update_livestream_title(ORACLE, 1, "A2".to_string()),
        Err(MarketError::StateError)
    );
    assert_eq!(m.remove_livestream(ORACLE, 1), Err(MarketError::StateError));
    assert_eq!(
        m.add_livestream_with_title(10, 3, "C".to_string(), NOW),
        Err(MarketError::StateError)
    );
    assert_eq!(m.close_market(ORACLE, NOW), Err(MarketError::StateError));
}

#[test]
fn resolved_market_is_terminal() {
    let mut m = new_market(vec![1], vec!["A"]);
    assert_eq!(m.place_bet(10, 1, 5, NOW), Ok(()));
    assert_eq!(m.close_market(ORACLE, NOW), Ok(()));
    assert_eq!(m.resolve_market(ORACLE, 1, NOW), Ok(()));
    assert_eq!(m.close_market(ORACLE, NOW), Err(MarketError::StateError));
    assert_eq!(m.resolve_market(ORACLE, 1, NOW), Err(MarketError::StateError));
    assert_eq!(m.place_bet(10, 1, 5, NOW), Err(MarketError::StateError));
}

#[test]
fn claim_before_resolution_fails() {
    let mut m = new_market(vec![1], vec!["A"]);
    assert_eq!(m.place_bet(10, 1, 5, NOW), Ok(()));
    assert_eq!(m.claim_payout(10), Err(MarketError::StateError));
    assert_eq!(m.close_market(ORACLE, NOW), Ok(()));
    assert_eq!(m.claim_payout(10), Err(MarketError::StateError));
}

#[test]
fn only_oracle_administers() {
    let mut m = new_market(vec![1], vec!["A"]);
    assert_eq!(m.close_market(99, NOW), Err(MarketError::AuthorizationError));
    assert_eq!(
        m.add_livestream(99, 3, "C".to_string(), NOW),
        Err(MarketError::AuthorizationError)
    );
    assert_eq!(
        m.update_livestream_title(99, 1, "A2".to_string()),
        Err(MarketError::AuthorizationError)
    );
    assert_eq!(
        m.remove_livestream(99, 1),
        Err(MarketError::AuthorizationError)
    );
    assert_eq!(m.close_market(ORACLE, NOW), Ok(()));
    assert_eq!(
        m.resolve_market(99, 1, NOW),
        Err(MarketError::AuthorizationError)
    );
}

#[test]
fn bet_validation_errors() {
    let mut m = new_market(vec![1], vec!["A"]);
    assert_eq!(m.place_bet(10, 1, 0, NOW), Err(MarketError::ValidationError));
    assert_eq!(m.place_bet(10, 0, 5, NOW), Err(MarketError::ValidationError));
}

#[test]
fn pool_overflow_is_rejected() {
    let mut m = new_market(vec![1], vec!["A"]);
    assert_eq!(m.place_bet(10, 1, u128::MAX, NOW), Ok(()));
    assert_eq!(
        m.place_bet(11, 1, 1, NOW),
        Err(MarketError::ArithmeticOverflowError)
    );
    // The full pool still pays out exactly.
    assert_eq!(m.close_market(ORACLE, NOW), Ok(()));
    assert_eq!(m.resolve_market(ORACLE, 1, NOW), Ok(()));
    assert_eq!(m.claim_payout(10), Ok(u128::MAX));
}

#[test]
fn registry_lifecycle() {
    let mut m = new_market(vec![1], vec!["A"]);
    assert_eq!(m.add_livestream(ORACLE, 2, "B".to_string(), NOW + 5), Ok(()));
    assert_eq!(
        m.add_livestream(ORACLE, 2, "B again".to_string(), NOW),
        Err(MarketError::ValidationError)
    );
    assert_eq!(
        m.add_livestream(ORACLE, 0, "zero".to_string(), NOW),
        Err(MarketError::ValidationError)
    );
    assert_eq!(m.update_livestream_title(ORACLE, 2, "B2".to_string()), Ok(()));
    assert_eq!(m.livestreams[1].title, "B2".to_string());
    assert_eq!(m.livestreams[1].added_at, NOW + 5);
    assert_eq!(
        m.update_livestream_title(ORACLE, 9, "X".to_string()),
        Err(MarketError::NotFoundError)
    );
    assert_eq!(m.place_bet(10, 2, 5, NOW), Ok(()));
    assert_eq!(m.remove_livestream(ORACLE, 2), Ok(()));
    let (ids, _, _, _, _, _) = m.get_market_info();
    assert_eq!(ids, vec![1]);
    // The record is kept for historical reads, only deactivated.
    assert!(!m.livestreams[1].active);
    assert_eq!(m.get_user_bet(10, 2), 5);
    let (amount, _, active) = m.get_livestream_bets(2).unwrap();
    assert_eq!(amount, 5);
    assert!(!active);
    // A retired outcome takes no further mutations or bets.
    assert_eq!(
        m.remove_livestream(ORACLE, 2),
        Err(MarketError::InactiveError)
    );
    assert_eq!(
        m.update_livestream_title(ORACLE, 2, "X".to_string()),
        Err(MarketError::InactiveError)
    );
    assert_eq!(m.place_bet(11, 2, 5, NOW), Err(MarketError::InactiveError));
    // Nor can it win: it left the active registry.
    assert_eq!(m.close_market(ORACLE, NOW), Ok(()));
    assert_eq!(
        m.resolve_market(ORACLE, 2, NOW),
        Err(MarketError::NotFoundError)
    );
}

#[test]
fn add_livestream_with_title_is_idempotent() {
    let mut m = new_market(vec![1], vec!["A"]);
    assert_eq!(
        m.add_livestream_with_title(10, 2, "B".to_string(), NOW),
        Ok(())
    );
    assert_eq!(
        m.add_livestream_with_title(10, 2, "other".to_string(), NOW),
        Ok(())
    );
    assert_eq!(m.livestreams[1].title, "B".to_string());
    assert_eq!(
        m.add_livestream_with_title(10, 3, "".to_string(), NOW),
        Err(MarketError::ValidationError)
    );
    assert_eq!(
        m.add_livestream_with_title(10, 0, "C".to_string(), NOW),
        Err(MarketError::ValidationError)
    );
    let (ids, _, _, _, _, _) = m.get_market_info();
    assert_eq!(ids, vec![1, 2]);
}

#[test]
fn livestream_bets_share_percentage() {
    let mut m = new_market(vec![1, 2], vec!["A", "B"]);
    assert_eq!(m.place_bet(10, 1, 400, NOW), Ok(()));
    assert_eq!(m.place_bet(11, 2, 600, NOW), Ok(()));
    assert_eq!(m.get_livestream_bets(1).unwrap(), (400, 40, true));
    assert_eq!(m.get_livestream_bets(2).unwrap(), (600, 60, true));
    assert_eq!(
        m.get_livestream_bets(9),
        Err(MarketError::NotFoundError)
    );
}

#[test]
fn cumulative_stakes_accumulate() {
    let mut m = new_market(vec![1], vec!["A"]);
    assert_eq!(m.place_bet(10, 1, 5, NOW), Ok(()));
    assert_eq!(m.place_bet(10, 1, 7, NOW), Ok(()));
    assert_eq!(m.get_user_bet(10, 1), 12);
    assert_eq!(m.get_user_bet(10, 2), 0);
    let (_, _, _, _, pool, bettors) = m.get_market_info();
    assert_eq!(pool, 12);
    assert_eq!(bettors, 1);
}

#[test]
fn close_and_resolve_record_times() {
    let mut m = new_market(vec![1], vec!["A"]);
    assert_eq!(m.place_bet(10, 1, 5, NOW), Ok(()));
    assert_eq!(m.closed_at, None);
    assert_eq!(m.close_market(ORACLE, NOW + 10), Ok(()));
    assert_eq!(m.closed_at, Some(NOW + 10));
    assert_eq!(m.resolved_at, None);
    assert_eq!(m.winning_livestream_id, None);
    assert_eq!(m.resolve_market(ORACLE, 1, NOW + 20), Ok(()));
    assert_eq!(m.resolved_at, Some(NOW + 20));
    assert_eq!(m.winning_livestream_id, Some(1));
    assert_eq!(m.get_market_info().3, 1);
}

#[test]
fn mul_div_is_exact() {
    assert_eq!(mul_div(1, 10, 3), 3);
    assert_eq!(mul_div(2, 10, 3), 6);
    assert_eq!(mul_div(100, 1000, 400), 250);
    assert_eq!(mul_div(300, 1000, 400), 750);
    assert_eq!(mul_div(0, 12345, 7), 0);
    assert_eq!(mul_div(7, 0, 7), 0);
    assert_eq!(mul_div(u128::MAX, u128::MAX, u128::MAX), u128::MAX);
    // The numerator here needs 200 bits: 2^100 * 2^100 / 2^101 == 2^99.
    assert_eq!(mul_div(1 << 100, 1 << 100, 1 << 101), 1 << 99);
    assert_eq!(
        mul_div(u128::MAX - 1, u128::MAX, u128::MAX),
        u128::MAX - 1
    );
}

#[test]
fn pool_equals_sum_of_outcome_totals() {
    let mut m = new_market(vec![1, 2], vec!["A", "B"]);
    assert_eq!(m.place_bet(10, 1, 11, NOW), Ok(()));
    assert_eq!(m.place_bet(11, 1, 22, NOW), Ok(()));
    assert_eq!(m.place_bet(12, 2, 33, NOW), Ok(()));
    assert_eq!(m.place_bet(10, 3, 44, NOW), Ok(()));
    let (a1, _, _) = m.get_livestream_bets(1).unwrap();
    let (a2, _, _) = m.get_livestream_bets(2).unwrap();
    let (a3, _, _) = m.get_livestream_bets(3).unwrap();
    let (_, _, _, _, pool, _) = m.get_market_info();
    assert_eq!(a1, 33);
    assert_eq!(a2, 33);
    assert_eq!(a3, 44);
    assert_eq!(pool, a1 + a2 + a3);
    // Each aggregate is in turn the sum of its bettors' stakes.
    assert_eq!(a1, m.get_user_bet(10, 1) + m.get_user_bet(11, 1));
}
