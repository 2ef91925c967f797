use renaissance_contract::{PayoutError, PlatformError, RenaissanceBettingContract};

#[test]
fn place_bet_accepts_positive_amount() {
    assert_eq!(RenaissanceBettingContract::place_bet(1), Ok(()));
    assert_eq!(RenaissanceBettingContract::place_bet(i128::MAX), Ok(()));
}

#[test]
fn place_bet_rejects_zero_and_negative() {
    assert_eq!(RenaissanceBettingContract::place_bet(0), Err(PlatformError::InvalidAmount));
    assert_eq!(RenaissanceBettingContract::place_bet(-5), Err(PlatformError::InvalidAmount));
    assert_eq!(RenaissanceBettingContract::place_bet(i128::MIN), Err(PlatformError::InvalidAmount));
}

#[test]
fn payout_formula_examples() {
    // stake 10 of a winning pool of 50, total 100: 10 + floor(10 * 50 / 50) = 20
    assert_eq!(RenaissanceBettingContract::payout(10, 100, 50), Ok(20));
    // stake 1 of a winning pool of 3, total 10: 1 + floor(7 / 3) = 3
    assert_eq!(RenaissanceBettingContract::payout(1, 10, 3), Ok(3));
    // nobody lost: the stake comes back
    assert_eq!(RenaissanceBettingContract::payout(7, 30, 30), Ok(7));
    // zero stake pays nothing
    assert_eq!(RenaissanceBettingContract::payout(0, 30, 10), Ok(0));
}

#[test]
fn payout_sole_winner_takes_pool() {
    assert_eq!(RenaissanceBettingContract::payout(40, 250, 40), Ok(250));
}

#[test]
fn payouts_stay_within_pool() {
    let stakes = [1i128, 1, 1];
    let total: i128 = stakes
        .iter()
        .map(|s| RenaissanceBettingContract::payout(*s, 10, 3).unwrap())
        .sum();
    assert_eq!(total, 9);
    assert!(total <= 10);
}

#[test]
fn payout_rejects_invalid_pools() {
    assert_eq!(RenaissanceBettingContract::payout(10, 100, 0), Err(PayoutError::InvalidPools));
    assert_eq!(RenaissanceBettingContract::payout(10, 100, -3), Err(PayoutError::InvalidPools));
    assert_eq!(RenaissanceBettingContract::payout(-1, 100, 50), Err(PayoutError::InvalidPools));
    assert_eq!(RenaissanceBettingContract::payout(10, 40, 50), Err(PayoutError::InvalidPools));
}

#[test]
fn payout_reports_overflow() {
    assert_eq!(
        RenaissanceBettingContract::payout(i128::MAX, i128::MAX, 1),
        Err(PayoutError::Overflow)
    );
    // the product fits but stake + share does not
    assert_eq!(
        RenaissanceBettingContract::payout(i128::MAX - 1, 2, 1),
        Err(PayoutError::Overflow)
    );
}
