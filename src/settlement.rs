use vstd::prelude::*;
use vstd::arithmetic::div_mod::{lemma_div_is_ordered, lemma_div_by_multiple};
use vstd::arithmetic::mul::lemma_mul_inequality;

verus! {

/// The proportional payout of a winning position:
/// `floor(user_shares * total_pool / winning_pool)`.
pub open spec fn payout_amount(user_shares: int, winning_pool: int, total_pool: int) -> int {
    user_shares * total_pool / winning_pool
}

/// Computes the payout owed to `user_shares` winning shares, using a 128-bit
/// intermediate so that the product cannot overflow.
///
/// Returns `None` only when the payout itself does not fit in a `u64`.
pub fn compute_payout(user_shares: u64, winning_pool: u64, total_pool: u64) -> (r: Option<u64>)
    requires
        winning_pool > 0,
    ensures
        r == (if payout_amount(user_shares as int, winning_pool as int, total_pool as int)
            <= u64::MAX {
            Some(payout_amount(user_shares as int, winning_pool as int, total_pool as int) as u64)
        } else {
            None::<u64>
        }),
{
    let u = user_shares as u128;
    let t = total_pool as u128;
    let w = winning_pool as u128;
    proof {
        lemma_mul_inequality(u as int, u64::MAX as int, t as int);
        lemma_mul_inequality(t as int, u64::MAX as int, u64::MAX as int);
        assert(u * t <= u64::MAX * u64::MAX) by (nonlinear_arith)
            requires u <= u64::MAX, t <= u64::MAX;
    }
    let q = u * t / w;
    if q <= u64::MAX as u128 {
        Some(q as u64)
    } else {
        None
    }
}

/// More winning shares never earn a smaller payout.
pub proof fn lemma_payout_monotonic(smaller: u64, larger: u64, winning_pool: u64, total_pool: u64)
    requires
        smaller <= larger,
        winning_pool > 0,
    ensures
        payout_amount(smaller as int, winning_pool as int, total_pool as int)
            <= payout_amount(larger as int, winning_pool as int, total_pool as int),
{
    lemma_mul_inequality(smaller as int, larger as int, total_pool as int);
    lemma_div_is_ordered(
        smaller as int * total_pool as int,
        larger as int * total_pool as int,
        winning_pool as int,
    );
}

/// A sole winner, holding the whole winning pool, takes the whole pool.
pub proof fn lemma_sole_winner_takes_pool(winning_pool: u64, total_pool: u64)
    requires
        winning_pool > 0,
    ensures
        payout_amount(winning_pool as int, winning_pool as int, total_pool as int)
            == total_pool,
{
    assert(winning_pool as int * total_pool as int == total_pool as int * winning_pool as int)
        by (nonlinear_arith);
    lemma_div_by_multiple(total_pool as int, winning_pool as int);
}

/// A position within the winning pool is paid at least its own stake and at
/// most the combined pool, so the payout fits wherever the pool does.
pub proof fn lemma_payout_bounds(user_shares: u64, winning_pool: u64, total_pool: u64)
    requires
        user_shares <= winning_pool,
        0 < winning_pool <= total_pool,
    ensures
        user_shares <= payout_amount(user_shares as int, winning_pool as int, total_pool as int)
            <= total_pool,
{
    lemma_payout_monotonic(user_shares, winning_pool, winning_pool, total_pool);
    lemma_sole_winner_takes_pool(winning_pool, total_pool);
    lemma_mul_inequality(winning_pool as int, total_pool as int, user_shares as int);
    assert(user_shares as int * winning_pool as int == winning_pool as int * user_shares as int)
        by (nonlinear_arith);
    assert(user_shares as int * total_pool as int == total_pool as int * user_shares as int)
        by (nonlinear_arith);
    lemma_div_by_multiple(user_shares as int, winning_pool as int);
    lemma_div_is_ordered(
        user_shares as int * winning_pool as int,
        user_shares as int * total_pool as int,
        winning_pool as int,
    );
}

} // verus!
