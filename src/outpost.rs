//! The liquidity outpost on a weighted 50:50 pool: how many pool shares a
//! deposit asks for, and the least it accepts.
use crate::bank::Coin;
use vstd::prelude::*;

verus! {

/// The share of the expected pool shares that a join must at least return,
/// in percent.
pub const MIN_SHARE_PERCENT: u128 = 97;

#[derive(Clone, Copy, Debug, PartialEq, Eq, Structural)]
pub enum OutpostError {
    /// The pool's first asset is worth more than its second.
    PriceRangeError,
    /// The pool holds none of one of its assets.
    EmptyPool,
    /// Nothing of either pool asset was paid.
    NoFundsProvided,
    /// A product does not fit in an amount.
    Overflow,
}

/// A join of both assets: the exact shares asked for, and the least the
/// depositor is handed on.
#[derive(Clone, Copy, Debug, PartialEq, Eq, Structural)]
pub struct DoubleSidedJoin {
    pub share_out_amount: u128,
    pub min_share_amount: u128,
}

/// The amount of the first paid coin of `denom`, or zero.
pub open spec fn paid_amount(funds: Seq<Coin>, denom: Seq<char>) -> int
    decreases funds.len(),
{
    if funds.len() == 0 {
        0
    } else if funds[0].denom@ == denom {
        funds[0].amount as int
    } else {
        paid_amount(funds.subrange(1, funds.len() as int), denom)
    }
}

/// `floor(a × b / c)`.
pub open spec fn mul_div(a: int, b: int, c: int) -> int {
    a * b / c
}

/// `floor(x × 97 / 100)`.
pub open spec fn min_shares(x: int) -> int {
    x * MIN_SHARE_PERCENT / 100
}

/// The amount paid of `denom`: the first coin of that denomination, else zero.
pub fn get_paid_denom_amount(funds: &Vec<Coin>, denom: &String) -> (r: u128)
    ensures
        r as int == paid_amount(funds@, denom@),
{
    let mut i: usize = 0;
    proof {
        assert(funds@.subrange(0, funds@.len() as int) =~= funds@);
    }
    while i < funds.len()
        invariant
            i <= funds@.len(),
            paid_amount(funds@, denom@) == paid_amount(funds@.subrange(i as int, funds@.len() as int), denom@),
        decreases funds@.len() - i,
    {
        let ghost rest = funds@.subrange(i as int, funds@.len() as int);
        proof {
            assert(rest.subrange(1, rest.len() as int) =~= funds@.subrange(i as int + 1, funds@.len() as int));
            assert(rest[0] == funds@[i as int]);
        }
        if funds[i].denom == *denom {
            return funds[i].amount;
        }
        i = i + 1;
    }
    proof {
        assert(funds@.subrange(i as int, funds@.len() as int).len() == 0);
    }
    0
}

/// `floor(x × 97 / 100)`, computed without overflow.
pub fn min_share_amount(x: u128) -> (r: u128)
    ensures
        r as int == min_shares(x as int),
{
    let q = x / 100;
    let rem = x % 100;
    proof {
        vstd::arithmetic::div_mod::lemma_fundamental_div_mod(x as int, 100);
        let t = (q as int) * 97 + (rem as int) * 97 / 100;
        vstd::arithmetic::div_mod::lemma_fundamental_div_mod((rem as int) * 97, 100);
        assert((x as int) * 97 == (t) * 100 + ((rem as int) * 97) % 100) by (nonlinear_arith)
            requires
                x as int == 100 * q + rem,
                (rem as int) * 97 == 100 * ((rem as int) * 97 / 100) + ((rem as int) * 97) % 100,
                t == (q as int) * 97 + (rem as int) * 97 / 100;
        vstd::arithmetic::div_mod::lemma_fundamental_div_mod_converse(
            (x as int) * 97,
            100,
            t,
            ((rem as int) * 97) % 100,
        );
    }
    q * 97 + rem * 97 / 100
}

/// `floor(a × b / c)`, or `None` where `a × b` exceeds an amount.
pub fn checked_mul_div(a: u128, b: u128, c: u128) -> (r: Option<u128>)
    requires
        c > 0,
    ensures
        r == (if a * b <= u128::MAX {
            Some(mul_div(a as int, b as int, c as int) as u128)
        } else {
            None::<u128>
        }),
{
    match a.checked_mul(b) {
        Some(p) => {
            proof {
                vstd::arithmetic::div_mod::lemma_div_is_ordered_by_denominator(p as int, 1, c as int);
            }
            Some(p / c)
        },
        None => None,
    }
}

/// The join that paying `p1` and `p2` into a pool holding `q1` and `q2`
/// and `t` shares makes: the smaller of the two assets' proportional
/// shares, and 97 % of that as the least accepted.
pub open spec fn join_plan(p1: int, p2: int, q1: int, q2: int, t: int) -> Result<
    DoubleSidedJoin,
    OutpostError,
> {
    if q1 == 0 || q2 == 0 {
        Err(OutpostError::EmptyPool)
    } else if p1 * t > u128::MAX || p2 * t > u128::MAX {
        Err(OutpostError::Overflow)
    } else {
        let out = if mul_div(p1, t, q1) <= mul_div(p2, t, q2) {
            mul_div(p1, t, q1)
        } else {
            mul_div(p2, t, q2)
        };
        Ok(
            DoubleSidedJoin {
                share_out_amount: out as u128,
                min_share_amount: min_shares(out) as u128,
            },
        )
    }
}

/// The join for paying `paid_1` and `paid_2` into a pool holding `pool_1`
/// and `pool_2` and `total_shares` shares.
pub fn double_sided_join(
    paid_1: u128,
    paid_2: u128,
    pool_1: u128,
    pool_2: u128,
    total_shares: u128,
) -> (r: Result<DoubleSidedJoin, OutpostError>)
    ensures
        r == join_plan(
            paid_1 as int,
            paid_2 as int,
            pool_1 as int,
            pool_2 as int,
            total_shares as int,
        ),
{
    if pool_1 == 0 || pool_2 == 0 {
        return Err(OutpostError::EmptyPool);
    }
    let by_1 = match checked_mul_div(paid_1, total_shares, pool_1) {
        Some(x) => x,
        None => return Err(OutpostError::Overflow),
    };
    let by_2 = match checked_mul_div(paid_2, total_shares, pool_2) {
        Some(x) => x,
        None => return Err(OutpostError::Overflow),
    };
    let share_out_amount = if by_1 <= by_2 {
        by_1
    } else {
        by_2
    };
    Ok(DoubleSidedJoin { share_out_amount, min_share_amount: min_share_amount(share_out_amount) })
}

/// What a deposit to the outpost does.
#[derive(Clone, Copy, Debug, PartialEq, Eq, Structural)]
pub enum OutpostProvision {
    /// Join with both assets.
    DoubleSided(DoubleSidedJoin),
    /// Join with the first asset alone.
    SingleSidedFirst(u128),
    /// Join with the second asset alone.
    SingleSidedSecond(u128),
}

/// Checks the pool's price (its first asset must not be worth more than
/// its second) and picks a join from what of each pool asset was paid.
pub fn plan_provision(
    pool_1: &Coin,
    pool_2: &Coin,
    total_shares: u128,
    funds: &Vec<Coin>,
) -> (r: Result<OutpostProvision, OutpostError>)
    ensures
        ({
            let p1 = paid_amount(funds@, pool_1.denom@);
            let p2 = paid_amount(funds@, pool_2.denom@);
            match r {
                Ok(OutpostProvision::DoubleSided(j)) => pool_2.amount > 0 && pool_1.amount
                    <= pool_2.amount && p1 != 0 && p2 != 0 && join_plan(
                    p1,
                    p2,
                    pool_1.amount as int,
                    pool_2.amount as int,
                    total_shares as int,
                ) == Ok::<DoubleSidedJoin, OutpostError>(j),
                Ok(OutpostProvision::SingleSidedFirst(a)) => pool_2.amount > 0 && pool_1.amount
                    <= pool_2.amount && a == p1 && p1 != 0 && p2 == 0,
                Ok(OutpostProvision::SingleSidedSecond(a)) => pool_2.amount > 0 && pool_1.amount
                    <= pool_2.amount && a == p2 && p1 == 0 && p2 != 0,
                Err(e) => if pool_2.amount == 0 {
                    e == OutpostError::EmptyPool
                } else if pool_1.amount > pool_2.amount {
                    e == OutpostError::PriceRangeError
                } else if p1 == 0 && p2 == 0 {
                    e == OutpostError::NoFundsProvided
                } else {
                    p1 != 0 && p2 != 0 && join_plan(
                        p1,
                        p2,
                        pool_1.amount as int,
                        pool_2.amount as int,
                        total_shares as int,
                    ) == Err::<DoubleSidedJoin, OutpostError>(e)
                },
            }
        }),
{
    if pool_2.amount == 0 {
        return Err(OutpostError::EmptyPool);
    }
    // The ratio pool_1 / pool_2 must lie within [0, 1].
    if pool_1.amount > pool_2.amount {
        return Err(OutpostError::PriceRangeError);
    }
    let paid_1 = get_paid_denom_amount(funds, &pool_1.denom);
    let paid_2 = get_paid_denom_amount(funds, &pool_2.denom);
    if paid_1 != 0 && paid_2 != 0 {
        match double_sided_join(paid_1, paid_2, pool_1.amount, pool_2.amount, total_shares) {
            Ok(j) => Ok(OutpostProvision::DoubleSided(j)),
            Err(e) => Err(e),
        }
    } else if paid_1 != 0 {
        Ok(OutpostProvision::SingleSidedFirst(paid_1))
    } else if paid_2 != 0 {
        Ok(OutpostProvision::SingleSidedSecond(paid_2))
    } else {
        Err(OutpostError::NoFundsProvided)
    }
}

} // verus!
