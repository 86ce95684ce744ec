//! The liquid pooler: turns the balances it holds into liquidity in an AMM
//! pool, both-sided at the pool's ratio where it can, one-sided within caps.
use crate::bank::Coin;
use crate::decimal::{ratio_atomics, Decimal, AMOUNT_MAX, DECIMAL_FRACTIONAL};
use crate::split::floor_share;
use vstd::prelude::*;

verus! {

/// The kind of AMM pool.
#[derive(Clone, Debug)]
pub enum PairType {
    Xyk,
    Stable,
    Custom(String),
}

pub open spec fn same_pair_type(a: PairType, b: PairType) -> bool {
    match (a, b) {
        (PairType::Xyk, PairType::Xyk) => true,
        (PairType::Stable, PairType::Stable) => true,
        (PairType::Custom(x), PairType::Custom(y)) => x@ == y@,
        _ => false,
    }
}

impl PairType {
    pub fn same_as(&self, other: &PairType) -> (r: bool)
        ensures
            r == same_pair_type(*self, *other),
    {
        match (self, other) {
            (PairType::Xyk, PairType::Xyk) => true,
            (PairType::Stable, PairType::Stable) => true,
            (PairType::Custom(x), PairType::Custom(y)) => *x == *y,
            _ => false,
        }
    }
}

/// An accepted interval of pool ratios.
#[derive(Clone, Copy, Debug, PartialEq, Eq, Structural)]
pub struct DecimalRange {
    pub min: Decimal,
    pub max: Decimal,
}

/// The largest one-sided provision of each asset.
#[derive(Clone, Copy, Debug, PartialEq, Eq, Structural)]
pub struct SingleSideLpLimits {
    pub asset_a_limit: u128,
    pub asset_b_limit: u128,
}

/// The two denominations the pool trades.
#[derive(Clone, Debug)]
pub struct AssetData {
    pub asset_a_denom: String,
    pub asset_b_denom: String,
}

/// The pool a covenant provides liquidity to.
#[derive(Clone, Debug)]
pub struct AstroportLiquidPoolerConfig {
    pub pool_pair_type: PairType,
    pub pool_address: String,
    pub asset_a_denom: String,
    pub asset_b_denom: String,
}

#[derive(Clone, Debug)]
pub struct LpConfig {
    pub pool_address: String,
    pub single_side_lp_limits: SingleSideLpLimits,
    pub slippage_tolerance: Option<Decimal>,
    pub expected_pool_ratio_range: DecimalRange,
    pub pair_type: PairType,
    pub asset_data: AssetData,
}

/// What the pooler has put into the pool so far.
#[derive(Clone, Copy, Debug, PartialEq, Eq, Structural)]
pub struct ProvidedLiquidityInfo {
    pub provided_amount_a: u128,
    pub provided_amount_b: u128,
}

/// A liquidity provision, funded with exactly `assets`.
#[derive(Debug)]
pub struct ProvideLiquidity {
    pub pool_address: String,
    pub assets: Vec<Coin>,
    pub slippage_tolerance: Option<Decimal>,
    pub auto_stake: bool,
    pub receiver: String,
}

#[derive(Clone, Copy, Debug, PartialEq, Eq, Structural)]
pub enum PoolerError {
    Unauthorized,
    NotClock,
    PairTypeMismatch,
    /// The pool holds none of an asset, or its ratio does not fit a decimal.
    PoolRatioError,
    PriceRangeError,
    FractionMulError,
    InvalidPercentage,
    Overflow,
}

#[derive(Debug)]
pub struct LiquidPooler {
    pub clock_address: String,
    pub holder_address: String,
    pub lp_config: LpConfig,
    pub provided_liquidity_info: ProvidedLiquidityInfo,
}

/// The amount of the last coin of denomination `d`, or zero.
pub open spec fn last_amount(coins: Seq<Coin>, d: Seq<char>) -> int
    decreases coins.len(),
{
    if coins.len() == 0 {
        0
    } else if coins.last().denom@ == d {
        coins.last().amount as int
    } else {
        last_amount(coins.drop_last(), d)
    }
}

/// The pool's holdings of `a` and `b`; a denomination that is also `b` counts as `b`.
pub open spec fn pool_amounts(coins: Seq<Coin>, a: Seq<char>, b: Seq<char>) -> (int, int) {
    (if a == b {
        0
    } else {
        last_amount(coins, a)
    }, last_amount(coins, b))
}

/// Own balances of `a` and `b`; a denomination that is also `a` counts as `a`.
pub open spec fn relevant_balances(coins: Seq<Coin>, a: Seq<char>, b: Seq<char>) -> (int, int) {
    (last_amount(coins, a), if a == b {
        0
    } else {
        last_amount(coins, b)
    })
}

/// The amounts a both-sided provision puts in: all of `cb` with as much of
/// `ca` as the ratio asks, or else all of `ca` with the matching part of
/// `cb`; `None` where a product overflows.
pub open spec fn double_sided_amounts(pa: int, pb: int, ca: int, cb: int) -> Option<(int, int)> {
    let need_a = floor_share(cb, ratio_atomics(pa, pb));
    if need_a > AMOUNT_MAX {
        None
    } else if ca >= need_a {
        Some((need_a, cb))
    } else if ratio_atomics(pb, pa) > AMOUNT_MAX || floor_share(ca, ratio_atomics(pb, pa))
        > AMOUNT_MAX {
        None
    } else {
        Some((ca, floor_share(ca, ratio_atomics(pb, pa))))
    }
}

/// What a tick of the pooler decides: an error, nothing to do, or the
/// amounts of each asset to provide.
pub open spec fn lp_outcome(
    p: LiquidPooler,
    sender: Seq<char>,
    pool_type: PairType,
    pool_assets: Seq<Coin>,
    balances: Seq<Coin>,
) -> Result<Option<(int, int)>, PoolerError> {
    let cfg = p.lp_config;
    let (pa, pb) = pool_amounts(pool_assets, cfg.asset_data.asset_a_denom@, cfg.asset_data.asset_b_denom@);
    let (ca, cb) = relevant_balances(balances, cfg.asset_data.asset_a_denom@, cfg.asset_data.asset_b_denom@);
    let ratio = ratio_atomics(pa, pb);
    let plan: Result<Option<(int, int)>, PoolerError> = if ca != 0 && cb != 0 {
        match double_sided_amounts(pa, pb, ca, cb) {
            None => Err(PoolerError::FractionMulError),
            Some(x) => Ok(Some(x)),
        }
    } else if ca == 0 && cb != 0 && cb <= cfg.single_side_lp_limits.asset_b_limit {
        Ok(Some((0, cb)))
    } else if cb == 0 && ca != 0 && ca <= cfg.single_side_lp_limits.asset_a_limit {
        Ok(Some((ca, 0)))
    } else {
        Ok(None)
    };
    if sender != p.clock_address@ {
        Err(PoolerError::NotClock)
    } else if !same_pair_type(pool_type, cfg.pair_type) {
        Err(PoolerError::PairTypeMismatch)
    } else if pb == 0 || ratio > AMOUNT_MAX {
        Err(PoolerError::PoolRatioError)
    } else if ratio < cfg.expected_pool_ratio_range.min.atomics || ratio
        > cfg.expected_pool_ratio_range.max.atomics {
        Err(PoolerError::PriceRangeError)
    } else {
        match plan {
            Ok(Some((a, b))) => if p.provided_liquidity_info.provided_amount_a + a > AMOUNT_MAX
                || p.provided_liquidity_info.provided_amount_b + b > AMOUNT_MAX {
                Err(PoolerError::Overflow)
            } else {
                Ok(Some((a, b)))
            },
            other => other,
        }
    }
}

/// The coins of a provision: each asset with a non-zero amount.
pub open spec fn provided_coins(a_denom: Seq<char>, b_denom: Seq<char>, a: int, b: int) -> Seq<
    (Seq<char>, int),
> {
    (if a > 0 {
        seq![(a_denom, a)]
    } else {
        Seq::empty()
    }) + (if b > 0 {
        seq![(b_denom, b)]
    } else {
        Seq::empty()
    })
}

pub open spec fn coins_view(v: Seq<Coin>) -> Seq<(Seq<char>, int)> {
    v.map_values(|c: Coin| (c.denom@, c.amount as int))
}

/// The amount of the last coin of `denom` in `coins`, or zero.
pub fn last_amount_of(coins: &Vec<Coin>, denom: &String) -> (r: u128)
    ensures
        r as int == last_amount(coins@, denom@),
{
    let mut acc: u128 = 0;
    let mut i: usize = 0;
    proof {
        assert(coins@.take(0) =~= Seq::<Coin>::empty());
    }
    while i < coins.len()
        invariant
            i <= coins@.len(),
            acc as int == last_amount(coins@.take(i as int), denom@),
        decreases coins@.len() - i,
    {
        proof {
            assert(coins@.take(i as int + 1).drop_last() =~= coins@.take(i as int));
        }
        if coins[i].denom == *denom {
            acc = coins[i].amount;
        }
        i = i + 1;
    }
    proof {
        assert(coins@.take(i as int) =~= coins@);
    }
    acc
}

impl DecimalRange {
    /// The range `[mid - delta, mid + delta]`; fails where it leaves the
    /// decimals.
    pub fn try_from(mid: Decimal, delta: Decimal) -> (r: Result<DecimalRange, PoolerError>)
        ensures
            r == (if delta.atomics <= mid.atomics && mid.atomics + delta.atomics <= AMOUNT_MAX {
                Ok(
                    DecimalRange {
                        min: Decimal { atomics: (mid.atomics - delta.atomics) as u128 },
                        max: Decimal { atomics: (mid.atomics + delta.atomics) as u128 },
                    },
                )
            } else {
                Err(PoolerError::PriceRangeError)
            }),
    {
        let min = match mid.checked_sub(delta) {
            Some(d) => d,
            None => return Err(PoolerError::PriceRangeError),
        };
        let max = match mid.checked_add(delta) {
            Some(d) => d,
            None => return Err(PoolerError::PriceRangeError),
        };
        Ok(DecimalRange { min, max })
    }

    pub fn is_within_range(&self, value: Decimal) -> (r: Result<(), PoolerError>)
        ensures
            r == (if self.min.atomics <= value.atomics && value.atomics <= self.max.atomics {
                Ok(())
            } else {
                Err(PoolerError::PriceRangeError)
            }),
    {
        if self.min.atomics <= value.atomics && value.atomics <= self.max.atomics {
            Ok(())
        } else {
            Err(PoolerError::PriceRangeError)
        }
    }
}

/// The amounts of a both-sided provision at the pool's ratio.
fn double_sided(pa: u128, pb: u128, ratio: Decimal, ca: u128, cb: u128) -> (r: Option<(u128, u128)>)
    requires
        pb > 0,
        ratio.atomics == ratio_atomics(pa as int, pb as int),
    ensures
        match r {
            Some((a, b)) => double_sided_amounts(pa as int, pb as int, ca as int, cb as int) == Some(
                (a as int, b as int),
            ),
            None => double_sided_amounts(pa as int, pb as int, ca as int, cb as int) is None,
        },
{
    let need_a = match ratio.checked_mul_floor(cb) {
        Some(x) => x,
        None => return None,
    };
    if ca >= need_a {
        return Some((need_a, cb));
    }
    // need_a > ca >= 0 means the pool holds some of asset a.
    proof {
        if pa == 0 {
            assert(ratio_atomics(0, pb as int) == 0);
        }
    }
    let inverse = match Decimal::checked_from_ratio(pb, pa) {
        Some(d) => d,
        None => return None,
    };
    match inverse.checked_mul_floor(ca) {
        Some(b) => Some((ca, b)),
        None => None,
    }
}

impl LiquidPooler {
    /// One tick: checks the pool, then provides what the balances allow.
    /// `pool_type` and `pool_assets` describe the pool as queried now;
    /// `balances` are the pooler's own.
    pub fn try_lp(
        &mut self,
        sender: &String,
        pool_type: &PairType,
        pool_assets: &Vec<Coin>,
        balances: &Vec<Coin>,
    ) -> (r: Result<Option<ProvideLiquidity>, PoolerError>)
        ensures
            match r {
                Err(e) => *final(self) == *old(self) && lp_outcome(
                    *old(self),
                    sender@,
                    *pool_type,
                    pool_assets@,
                    balances@,
                ) == Err::<Option<(int, int)>, PoolerError>(e),
                Ok(None) => *final(self) == *old(self) && lp_outcome(
                    *old(self),
                    sender@,
                    *pool_type,
                    pool_assets@,
                    balances@,
                ) == Ok::<Option<(int, int)>, PoolerError>(None),
                Ok(Some(m)) => {
                    let cfg = old(self).lp_config;
                    let info = old(self).provided_liquidity_info;
                    exists|a: int, b: int|
                        {
                            &&& lp_outcome(*old(self), sender@, *pool_type, pool_assets@, balances@)
                                == Ok::<Option<(int, int)>, PoolerError>(Some((a, b)))
                            &&& *final(self) == (LiquidPooler {
                                provided_liquidity_info: ProvidedLiquidityInfo {
                                    provided_amount_a: (info.provided_amount_a + a) as u128,
                                    provided_amount_b: (info.provided_amount_b + b) as u128,
                                },
                                ..*old(self)
                            })
                            &&& coins_view(m.assets@) == provided_coins(
                                cfg.asset_data.asset_a_denom@,
                                cfg.asset_data.asset_b_denom@,
                                a,
                                b,
                            )
                        }
                        && m.pool_address == cfg.pool_address && m.slippage_tolerance
                        == cfg.slippage_tolerance && !m.auto_stake && m.receiver
                        == old(self).holder_address
                },
            },
    {
        if *sender != self.clock_address {
            return Err(PoolerError::NotClock);
        }
        let cfg = &self.lp_config;
        if !pool_type.same_as(&cfg.pair_type) {
            return Err(PoolerError::PairTypeMismatch);
        }
        let a_denom = &cfg.asset_data.asset_a_denom;
        let b_denom = &cfg.asset_data.asset_b_denom;
        let pb = last_amount_of(pool_assets, b_denom);
        let pa = if *a_denom == *b_denom {
            0
        } else {
            last_amount_of(pool_assets, a_denom)
        };
        if pb == 0 {
            return Err(PoolerError::PoolRatioError);
        }
        let ratio = match Decimal::checked_from_ratio(pa, pb) {
            Some(d) => d,
            None => return Err(PoolerError::PoolRatioError),
        };
        match cfg.expected_pool_ratio_range.is_within_range(ratio) {
            Ok(()) => {},
            Err(e) => return Err(e),
        }
        let ca = last_amount_of(balances, a_denom);
        let cb = if *a_denom == *b_denom {
            0
        } else {
            last_amount_of(balances, b_denom)
        };
        let (a, b): (u128, u128) = if ca != 0 && cb != 0 {
            match double_sided(pa, pb, ratio, ca, cb) {
                Some(x) => x,
                None => return Err(PoolerError::FractionMulError),
            }
        } else if ca == 0 && cb != 0 && cb <= cfg.single_side_lp_limits.asset_b_limit {
            (0, cb)
        } else if cb == 0 && ca != 0 && ca <= cfg.single_side_lp_limits.asset_a_limit {
            (ca, 0)
        } else {
            return Ok(None);
        };
        let info = self.provided_liquidity_info;
        let new_a = match info.provided_amount_a.checked_add(a) {
            Some(x) => x,
            None => return Err(PoolerError::Overflow),
        };
        let new_b = match info.provided_amount_b.checked_add(b) {
            Some(x) => x,
            None => return Err(PoolerError::Overflow),
        };
        let mut assets: Vec<Coin> = Vec::new();
        if a > 0 {
            assets.push(Coin { denom: a_denom.clone(), amount: a });
        }
        if b > 0 {
            assets.push(Coin { denom: b_denom.clone(), amount: b });
        }
        proof {
            assert(coins_view(assets@) =~= provided_coins(a_denom@, b_denom@, a as int, b as int));
        }
        let m = ProvideLiquidity {
            pool_address: cfg.pool_address.clone(),
            assets,
            slippage_tolerance: cfg.slippage_tolerance,
            auto_stake: false,
            receiver: self.holder_address.clone(),
        };
        self.provided_liquidity_info = ProvidedLiquidityInfo {
            provided_amount_a: new_a,
            provided_amount_b: new_b,
        };
        Ok(Some(m))
    }

    /// The amount of LP tokens to burn for a withdrawal of `percentage` of
    /// `lp_balance` (all of it for `None`), as the holder asks.
    pub fn withdraw(&self, sender: &String, percentage: Option<Decimal>, lp_balance: u128) -> (r:
        Result<u128, PoolerError>)
        ensures
            r == (if sender@ != self.holder_address@ {
                Err(PoolerError::Unauthorized)
            } else {
                match percentage {
                    None => Ok(lp_balance),
                    Some(p) => if p.atomics == 0 || p.atomics > DECIMAL_FRACTIONAL {
                        Err(PoolerError::InvalidPercentage)
                    } else {
                        Ok(floor_share(lp_balance as int, p.atomics as int) as u128)
                    },
                }
            }),
    {
        if *sender != self.holder_address {
            return Err(PoolerError::Unauthorized);
        }
        match percentage {
            None => Ok(lp_balance),
            Some(p) => {
                if p.atomics == 0 || p.atomics > DECIMAL_FRACTIONAL {
                    return Err(PoolerError::InvalidPercentage);
                }
                proof {
                    crate::split::lemma_floor_share_bounds(lp_balance as int, p.atomics as int);
                }
                match p.checked_mul_floor(lp_balance) {
                    Some(x) => Ok(x),
                    None => Err(PoolerError::FractionMulError),
                }
            },
        }
    }
}

proof fn lemma_floor_share_tight(x: int, r: int)
    requires
        x >= 0,
        r >= 0,
    ensures
        floor_share(x, r) * DECIMAL_FRACTIONAL <= r * x < (floor_share(x, r) + 1)
            * DECIMAL_FRACTIONAL,
{
    let f = DECIMAL_FRACTIONAL as int;
    vstd::arithmetic::div_mod::lemma_fundamental_div_mod(x * r, f);
    assert(x * r == r * x) by (nonlinear_arith);
    assert(floor_share(x, r) * f == f * floor_share(x, r)) by (nonlinear_arith);
}

/// A both-sided provision follows the pool ratio `r = A / B` as queried,
/// which lies in the configured range: either all of the b balance goes in
/// with `floor(r × b)` of a, so that `a / b` stays at most the range's
/// maximum, or all of the a balance with `floor(a × B / A)` of b, so that
/// `a / b` stays at least its minimum.
pub proof fn lemma_double_sided_follows_pool_ratio(
    p: LiquidPooler,
    sender: Seq<char>,
    pool_type: PairType,
    pool_assets: Seq<Coin>,
    balances: Seq<Coin>,
    a: int,
    b: int,
)
    requires
        lp_outcome(p, sender, pool_type, pool_assets, balances) == Ok::<
            Option<(int, int)>,
            PoolerError,
        >(Some((a, b))),
        relevant_balances(
            balances,
            p.lp_config.asset_data.asset_a_denom@,
            p.lp_config.asset_data.asset_b_denom@,
        ).0 != 0,
        relevant_balances(
            balances,
            p.lp_config.asset_data.asset_a_denom@,
            p.lp_config.asset_data.asset_b_denom@,
        ).1 != 0,
    ensures
        ({
            let cfg = p.lp_config;
            let (pa, pb) = pool_amounts(
                pool_assets,
                cfg.asset_data.asset_a_denom@,
                cfg.asset_data.asset_b_denom@,
            );
            let (ca, cb) = relevant_balances(
                balances,
                cfg.asset_data.asset_a_denom@,
                cfg.asset_data.asset_b_denom@,
            );
            let r = ratio_atomics(pa, pb);
            &&& cfg.expected_pool_ratio_range.min.atomics <= r
            &&& r <= cfg.expected_pool_ratio_range.max.atomics
            &&& (b == cb && a * DECIMAL_FRACTIONAL <= r * b && r * b < (a + 1) * DECIMAL_FRACTIONAL
                && a * DECIMAL_FRACTIONAL <= cfg.expected_pool_ratio_range.max.atomics * b) || (a
                == ca && b * DECIMAL_FRACTIONAL <= ratio_atomics(pb, pa) * a && ratio_atomics(
                pb,
                pa,
            ) * a < (b + 1) * DECIMAL_FRACTIONAL && cfg.expected_pool_ratio_range.min.atomics * b
                <= a * DECIMAL_FRACTIONAL)
        }),
{
    let cfg = p.lp_config;
    let (pa, pb) = pool_amounts(pool_assets, cfg.asset_data.asset_a_denom@, cfg.asset_data.asset_b_denom@);
    let (ca, cb) = relevant_balances(balances, cfg.asset_data.asset_a_denom@, cfg.asset_data.asset_b_denom@);
    lemma_last_amount_nonneg(pool_assets, cfg.asset_data.asset_a_denom@);
    lemma_last_amount_nonneg(pool_assets, cfg.asset_data.asset_b_denom@);
    lemma_last_amount_nonneg(balances, cfg.asset_data.asset_a_denom@);
    lemma_last_amount_nonneg(balances, cfg.asset_data.asset_b_denom@);
    assert(pa >= 0 && pb > 0);
    let r = ratio_atomics(pa, pb);
    assert(r >= 0) by {
        assert(pa * DECIMAL_FRACTIONAL >= 0) by (nonlinear_arith)
            requires
                pa >= 0;
        vstd::arithmetic::div_mod::lemma_div_pos_is_pos(pa * DECIMAL_FRACTIONAL, pb);
    }
    lemma_floor_share_tight(cb, r);
    let f = DECIMAL_FRACTIONAL as int;
    let mx = cfg.expected_pool_ratio_range.max.atomics as int;
    let mn = cfg.expected_pool_ratio_range.min.atomics as int;
    assert(r * cb <= mx * cb) by (nonlinear_arith)
        requires
            r <= mx,
            cb >= 0;
    if ca < floor_share(cb, r) {
        assert(pa > 0) by {
            if pa == 0 {
                assert(r == 0);
                assert(cb * 0 == 0);
                assert(floor_share(cb, 0) == 0);
            }
        }
        let ri = ratio_atomics(pb, pa);
        assert(ri >= 0) by {
            assert(pb * DECIMAL_FRACTIONAL >= 0) by (nonlinear_arith)
                requires
                    pb >= 0;
            vstd::arithmetic::div_mod::lemma_div_pos_is_pos(pb * DECIMAL_FRACTIONAL, pa);
        }
        lemma_floor_share_tight(ca, ri);
        let b = floor_share(ca, ri);
        // ri × A <= B × F and r × B <= A × F, by flooring.
        vstd::arithmetic::div_mod::lemma_fundamental_div_mod(pb * f, pa);
        vstd::arithmetic::div_mod::lemma_fundamental_div_mod(pa * f, pb);
        assert(ri * pa <= pb * f) by (nonlinear_arith)
            requires
                pb * f == pa * ri + (pb * f) % pa,
                (pb * f) % pa >= 0;
        assert(r * pb <= pa * f) by (nonlinear_arith)
            requires
                pa * f == pb * r + (pa * f) % pb,
                (pa * f) % pb >= 0;
        assert(b * pa <= pb * ca) by (nonlinear_arith)
            requires
                b * f <= ri * ca,
                ri * pa <= pb * f,
                pa > 0,
                ca >= 0,
                f > 0;
        assert(r * b <= f * ca) by (nonlinear_arith)
            requires
                r * pb <= pa * f,
                b * pa <= pb * ca,
                b >= 0,
                r >= 0,
                pb > 0,
                f > 0;
        assert(mn * b <= r * b) by (nonlinear_arith)
            requires
                mn <= r,
                b >= 0;
    }
}

proof fn lemma_last_amount_nonneg(coins: Seq<Coin>, d: Seq<char>)
    ensures
        last_amount(coins, d) >= 0,
    decreases coins.len(),
{
    if coins.len() > 0 {
        lemma_last_amount_nonneg(coins.drop_last(), d);
    }
}

} // verus!
