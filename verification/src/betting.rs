use vstd::prelude::*;

use vstd::arithmetic::div_mod::{lemma_div_multiples_vanish, lemma_fundamental_div_mod, lemma_mod_bound};
use vstd::arithmetic::mul::{lemma_mul_is_commutative, lemma_mul_is_distributive_add};

verus! {

/// Why the betting contract refused a bet.
#[derive(Clone, Copy, Debug, PartialEq, Eq, Structural)]
pub enum PlatformError {
    /// The amount staked is not positive.
    InvalidAmount,
}

/// Why a payout could not be computed.
#[derive(Clone, Copy, Debug, PartialEq, Eq, Structural)]
pub enum PayoutError {
    /// The stake is negative, the winning pool is not strictly positive, or
    /// the total pool is smaller than the winning pool.
    InvalidPools,
    /// An intermediate value or the payout does not fit in an `i128`.
    Overflow,
}

/// The betting contract's entry points.
pub struct RenaissanceBettingContract;

impl RenaissanceBettingContract {
    /// Checks a bet of `amount`: it is accepted exactly when the amount is
    /// strictly positive.
    pub fn place_bet(amount: i128) -> (r: Result<(), PlatformError>)
        ensures
            r is Ok <==> amount > 0,
            r is Err ==> r == Err::<(), PlatformError>(PlatformError::InvalidAmount),
    {
        if amount <= 0 {
            return Err(PlatformError::InvalidAmount);
        }
        Ok(())
    }

    /// The payout of a winning bet of `stake` in a settled match whose
    /// outcome pools hold `total_pool` in all and `winning_pool` on the
    /// winning outcome: the stake plus its share of the losing pools,
    /// rounded down (see `payout_amount`), computed with checked arithmetic.
    pub fn payout(stake: i128, total_pool: i128, winning_pool: i128) -> (r: Result<i128, PayoutError>)
        ensures
            !pools_valid(stake as int, total_pool as int, winning_pool as int) ==> r == Err::<
                i128,
                PayoutError,
            >(PayoutError::InvalidPools),
            pools_valid(stake as int, total_pool as int, winning_pool as int) ==> {
                let product = stake * (total_pool - winning_pool);
                let amount = payout_amount(stake as int, total_pool as int, winning_pool as int);
                if product > i128::MAX || amount > i128::MAX {
                    r == Err::<i128, PayoutError>(PayoutError::Overflow)
                } else {
                    r == Ok::<i128, PayoutError>(amount as i128)
                }
            },
    {
        if stake < 0 || winning_pool <= 0 || total_pool < winning_pool {
            return Err(PayoutError::InvalidPools);
        }
        let losing_pools = total_pool - winning_pool;
        let product = match stake.checked_mul(losing_pools) {
            Some(p) => p,
            None => {
                proof {
                    assert(stake * losing_pools >= 0) by (nonlinear_arith)
                        requires
                            stake >= 0,
                            losing_pools >= 0,
                    ;
                }
                return Err(PayoutError::Overflow);
            },
        };
        proof {
            assert(stake * losing_pools >= 0) by (nonlinear_arith)
                requires
                    stake >= 0,
                    losing_pools >= 0,
            ;
        }
        let bonus = match product.checked_div(winning_pool) {
            Some(q) => q,
            None => {
                return Err(PayoutError::Overflow);
            },
        };
        proof {
            assert(bonus == product / winning_pool);
            assert(bonus >= 0);
        }
        match stake.checked_add(bonus) {
            Some(p) => Ok(p),
            None => Err(PayoutError::Overflow),
        }
    }
}

/// The inputs on which a payout is defined: a non-negative stake, a strictly
/// positive winning pool, and a total pool no smaller than the winning pool.
pub open spec fn pools_valid(stake: int, total_pool: int, winning_pool: int) -> bool {
    &&& 0 <= stake
    &&& 0 < winning_pool
    &&& winning_pool <= total_pool
}

/// `stake + floor(stake * (total_pool - winning_pool) / winning_pool)`.
pub open spec fn payout_amount(stake: int, total_pool: int, winning_pool: int) -> int {
    stake + (stake * (total_pool - winning_pool)) / winning_pool
}

/// The sum of a sequence of amounts.
pub open spec fn sum_of(s: Seq<int>) -> int
    decreases s.len(),
{
    if s.len() == 0 {
        0
    } else {
        sum_of(s.drop_last()) + s.last()
    }
}

/// The sum of the payouts of the winning bets `stakes`.
pub open spec fn total_payout(stakes: Seq<int>, total_pool: int, winning_pool: int) -> int
    decreases stakes.len(),
{
    if stakes.len() == 0 {
        0
    } else {
        total_payout(stakes.drop_last(), total_pool, winning_pool) + payout_amount(
            stakes.last(),
            total_pool,
            winning_pool,
        )
    }
}

proof fn lemma_floor_div_add(x: int, y: int, d: int)
    requires
        d > 0,
    ensures
        x / d + y / d <= (x + y) / d,
{
    lemma_fundamental_div_mod(x, d);
    lemma_fundamental_div_mod(y, d);
    lemma_fundamental_div_mod(x + y, d);
    lemma_mod_bound(x, d);
    lemma_mod_bound(y, d);
    lemma_mod_bound(x + y, d);
    let q1 = x / d;
    let q2 = y / d;
    let q3 = (x + y) / d;
    let r1 = x % d;
    let r2 = y % d;
    let r3 = (x + y) % d;
    assert(q1 + q2 <= q3) by (nonlinear_arith)
        requires
            d > 0,
            x == d * q1 + r1,
            y == d * q2 + r2,
            x + y == d * q3 + r3,
            0 <= r1 < d,
            0 <= r2 < d,
            0 <= r3 < d,
    ;
}

proof fn lemma_total_payout_bound(stakes: Seq<int>, total_pool: int, winning_pool: int)
    requires
        0 < winning_pool <= total_pool,
    ensures
        total_payout(stakes, total_pool, winning_pool) <= sum_of(stakes) + (sum_of(stakes) * (total_pool
            - winning_pool)) / winning_pool,
    decreases stakes.len(),
{
    if stakes.len() > 0 {
        let p = stakes.drop_last();
        let b = stakes.last();
        let k = total_pool - winning_pool;
        lemma_total_payout_bound(p, total_pool, winning_pool);
        lemma_floor_div_add(sum_of(p) * k, b * k, winning_pool);
        lemma_mul_is_commutative(sum_of(p), k);
        lemma_mul_is_commutative(b, k);
        lemma_mul_is_commutative(sum_of(p) + b, k);
        lemma_mul_is_distributive_add(k, sum_of(p), b);
    }
}

/// A winning bet never pays out less than its stake.
pub proof fn lemma_payout_covers_stake(stake: int, total_pool: int, winning_pool: int)
    requires
        pools_valid(stake, total_pool, winning_pool),
    ensures
        payout_amount(stake, total_pool, winning_pool) >= stake,
{
    let k = total_pool - winning_pool;
    assert(stake * k >= 0) by (nonlinear_arith)
        requires
            stake >= 0,
            k >= 0,
    ;
    lemma_fundamental_div_mod(stake * k, winning_pool);
    lemma_mod_bound(stake * k, winning_pool);
    let q = (stake * k) / winning_pool;
    let r = (stake * k) % winning_pool;
    assert(q >= 0) by (nonlinear_arith)
        requires
            stake * k >= 0,
            stake * k == winning_pool * q + r,
            0 <= r < winning_pool,
    ;
}

/// The winning bets of a match never take more than the total pool: when
/// the stakes on the winning outcome add up to the winning pool, their
/// payouts add up to at most the total pool (rounding down leaves any
/// remainder in the contract).
pub proof fn lemma_payouts_within_pool(stakes: Seq<int>, total_pool: int, winning_pool: int)
    requires
        0 < winning_pool <= total_pool,
        sum_of(stakes) == winning_pool,
    ensures
        total_payout(stakes, total_pool, winning_pool) <= total_pool,
{
    lemma_total_payout_bound(stakes, total_pool, winning_pool);
    lemma_mul_is_commutative(winning_pool, total_pool - winning_pool);
    lemma_div_multiples_vanish(total_pool - winning_pool, winning_pool);
}

/// The sole bettor on the winning outcome takes the whole pool.
pub proof fn lemma_sole_winner_takes_pool(total_pool: int, winning_pool: int)
    requires
        0 < winning_pool <= total_pool,
    ensures
        payout_amount(winning_pool, total_pool, winning_pool) == total_pool,
{
    lemma_div_multiples_vanish(total_pool - winning_pool, winning_pool);
}

} // verus!
