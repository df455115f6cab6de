use prediction_market::errors::MarketError;
use prediction_market::factory::MarketFactory;

const OWNER: u64 = 1;
const MARKET_A: u64 = 100;
const MARKET_B: u64 = 200;

#[test]
fn test_test_initialize() {
    let f = MarketFactory::initialize(OWNER);
    let retrieved_owner = f.get_owner();
    assert_eq!(OWNER, retrieved_owner);
}

#[test]
fn create_market_indexes_both_directions() {
    let mut f = MarketFactory::initialize(OWNER);
    assert_eq!(f.create_market(OWNER, MARKET_A, vec![1, 2]), Ok(()));
    assert!(f.is_valid_market(MARKET_A));
    assert!(!f.is_valid_market(MARKET_B));
    assert_eq!(f.get_total_market_count(), 1);
    assert_eq!(f.get_livestreams_for_market(MARKET_A), Ok(vec![1, 2]));
    assert_eq!(f.get_markets_for_livestream(1), vec![MARKET_A]);
    assert_eq!(f.get_markets_for_livestream(2), vec![MARKET_A]);
    assert_eq!(f.get_markets_for_livestream(3), Vec::<u64>::new());
    assert_eq!(f.get_market_count_for_livestream(1), 1);
    assert_eq!(f.get_market_count_for_livestream(3), 0);
    assert!(f.is_livestream_in_market(MARKET_A, 1));
    assert!(!f.is_livestream_in_market(MARKET_A, 3));
    assert!(!f.is_livestream_in_market(MARKET_B, 1));
    assert_eq!(f.create_market(OWNER, MARKET_B, vec![2, 3]), Ok(()));
    assert_eq!(f.get_markets_for_livestream(2), vec![MARKET_A, MARKET_B]);
}

#[test]
fn create_market_rejections() {
    let mut f = MarketFactory::initialize(OWNER);
    assert_eq!(
        f.create_market(99, MARKET_A, vec![1]),
        Err(MarketError::AuthorizationError)
    );
    assert_eq!(f.create_market(OWNER, MARKET_A, vec![1]), Ok(()));
    assert_eq!(
        f.create_market(OWNER, MARKET_A, vec![2]),
        Err(MarketError::ValidationError)
    );
    assert_eq!(
        f.create_market(OWNER, MARKET_B, vec![4, 4]),
        Err(MarketError::ValidationError)
    );
}

#[test]
fn add_and_remove_livestream_in_market() {
    let mut f = MarketFactory::initialize(OWNER);
    assert_eq!(f.create_market(OWNER, MARKET_A, vec![1]), Ok(()));
    assert_eq!(f.add_livestream_to_market(OWNER, MARKET_A, 2), Ok(()));
    assert_eq!(f.get_livestreams_for_market(MARKET_A), Ok(vec![1, 2]));
    assert_eq!(f.get_markets_for_livestream(2), vec![MARKET_A]);
    assert_eq!(
        f.add_livestream_to_market(OWNER, MARKET_A, 2),
        Err(MarketError::ValidationError)
    );
    assert_eq!(
        f.add_livestream_to_market(99, MARKET_A, 3),
        Err(MarketError::AuthorizationError)
    );
    assert_eq!(
        f.add_livestream_to_market(OWNER, MARKET_B, 3),
        Err(MarketError::NotFoundError)
    );
    assert_eq!(f.remove_livestream_from_market(OWNER, MARKET_A, 2), Ok(()));
    assert_eq!(f.get_livestreams_for_market(MARKET_A), Ok(vec![1]));
    assert_eq!(f.get_markets_for_livestream(2), Vec::<u64>::new());
    assert!(!f.is_livestream_in_market(MARKET_A, 2));
    // Removing a pair that is not indexed is a quiet no-op.
    assert_eq!(f.remove_livestream_from_market(OWNER, MARKET_A, 9), Ok(()));
    assert_eq!(
        f.remove_livestream_from_market(99, MARKET_A, 1),
        Err(MarketError::AuthorizationError)
    );
    assert_eq!(
        f.remove_livestream_from_market(OWNER, MARKET_B, 1),
        Err(MarketError::NotFoundError)
    );
}

#[test]
fn get_all_markets_pages() {
    let mut f = MarketFactory::initialize(OWNER);
    for i in 0..5u64 {
        assert_eq!(f.create_market(OWNER, 100 + i, vec![i + 1]), Ok(()));
    }
    assert_eq!(f.get_all_markets(0, 2), Ok(vec![100, 101]));
    assert_eq!(f.get_all_markets(2, 2), Ok(vec![102, 103]));
    assert_eq!(f.get_all_markets(4, 10), Ok(vec![104]));
    assert_eq!(f.get_all_markets(5, 1), Err(MarketError::ValidationError));
    assert_eq!(f.get_all_markets(0, 0), Ok(Vec::<u64>::new()));
}

#[test]
fn notify_market_closed_checks_caller() {
    let mut f = MarketFactory::initialize(OWNER);
    assert_eq!(f.create_market(OWNER, MARKET_A, vec![1]), Ok(()));
    assert_eq!(f.notify_market_closed(MARKET_A, &vec![1]), Ok(()));
    assert_eq!(
        f.notify_market_closed(MARKET_B, &vec![1]),
        Err(MarketError::AuthorizationError)
    );
}

#[test]
fn transfer_ownership_hands_over() {
    let mut f = MarketFactory::initialize(OWNER);
    assert_eq!(
        f.transfer_ownership(99, 7),
        Err(MarketError::AuthorizationError)
    );
    assert_eq!(f.transfer_ownership(OWNER, 7), Ok(()));
    assert_eq!(f.get_owner(), 7);
    assert_eq!(
        f.create_market(OWNER, MARKET_A, vec![1]),
        Err(MarketError::AuthorizationError)
    );
    assert_eq!(f.create_market(7, MARKET_A, vec![1]), Ok(()));
}
