use covenant::bank::Coin;
use covenant::decimal::Decimal;
use covenant::pooler::{
    AssetData, DecimalRange, LiquidPooler, LpConfig, PairType, PoolerError,
    ProvidedLiquidityInfo, SingleSideLpLimits,
};

fn s(x: &str) -> String {
    x.to_string()
}

fn pooler(range: DecimalRange, limit_a: u128, limit_b: u128) -> LiquidPooler {
    LiquidPooler {
        clock_address: s("clock"),
        holder_address: s("holder"),
        lp_config: LpConfig {
            pool_address: s("pool"),
            single_side_lp_limits: SingleSideLpLimits { asset_a_limit: limit_a, asset_b_limit: limit_b },
            slippage_tolerance: Some(Decimal::percent(1)),
            expected_pool_ratio_range: range,
            pair_type: PairType::Xyk,
            asset_data: AssetData { asset_a_denom: s("a"), asset_b_denom: s("b") },
        },
        provided_liquidity_info: ProvidedLiquidityInfo { provided_amount_a: 0, provided_amount_b: 0 },
    }
}

fn wide() -> DecimalRange {
    DecimalRange::try_from(Decimal::one(), Decimal::percent(50)).unwrap()
}

fn c(d: &str, amount: u128) -> Coin {
    Coin { denom: s(d), amount }
}

#[test]
fn decimal_range_from_mid_and_spread() {
    let r = DecimalRange::try_from(Decimal::one(), Decimal::percent(5)).unwrap();
    assert_eq!(Decimal::percent(95), r.min);
    assert_eq!(Decimal::percent(105), r.max);
    assert_eq!(Ok(()), r.is_within_range(Decimal::one()));
    assert_eq!(Ok(()), r.is_within_range(Decimal::percent(105)));
    assert_eq!(Err(PoolerError::PriceRangeError), r.is_within_range(Decimal::percent(106)));
    assert_eq!(Err(PoolerError::PriceRangeError), DecimalRange::try_from(Decimal::percent(5), Decimal::percent(6)));
}

#[test]
fn pool_out_of_range_provides_nothing() {
    let range = DecimalRange::try_from(Decimal::one(), Decimal::percent(5)).unwrap();
    let mut p = pooler(range, 100, 100);
    let pool = vec![c("a", 112), c("b", 100)];
    let r = p.try_lp(&s("clock"), &PairType::Xyk, &pool, &vec![c("a", 50), c("b", 50)]);
    assert_eq!(Some(PoolerError::PriceRangeError), r.err());
    assert_eq!(ProvidedLiquidityInfo { provided_amount_a: 0, provided_amount_b: 0 }, p.provided_liquidity_info);
}

#[test]
fn single_sided_within_limit() {
    let mut p = pooler(wide(), 100, 100);
    let pool = vec![c("a", 1000), c("b", 1000)];
    let m = p.try_lp(&s("clock"), &PairType::Xyk, &pool, &vec![c("a", 80)]).unwrap().unwrap();
    assert_eq!(1, m.assets.len());
    assert_eq!(80, m.assets[0].amount);
    assert_eq!("a", m.assets[0].denom);
    assert_eq!("holder", m.receiver);
    assert!(!m.auto_stake);
    assert_eq!(80, p.provided_liquidity_info.provided_amount_a);

    let mut q = pooler(wide(), 100, 100);
    let none = q.try_lp(&s("clock"), &PairType::Xyk, &pool, &vec![c("a", 120)]).unwrap();
    assert!(none.is_none());
    assert_eq!(0, q.provided_liquidity_info.provided_amount_a);
}

#[test]
fn double_sided_uses_all_of_b_when_a_suffices() {
    let mut p = pooler(wide(), 0, 0);
    // pool ratio a / b = 1.2
    let pool = vec![c("a", 1200), c("b", 1000)];
    let m = p.try_lp(&s("clock"), &PairType::Xyk, &pool, &vec![c("a", 500), c("b", 100), c("junk", 7)]).unwrap().unwrap();
    assert_eq!(2, m.assets.len());
    assert_eq!(120, m.assets[0].amount);
    assert_eq!(100, m.assets[1].amount);
    assert_eq!(ProvidedLiquidityInfo { provided_amount_a: 120, provided_amount_b: 100 }, p.provided_liquidity_info);
}

#[test]
fn double_sided_uses_all_of_a_when_a_is_short() {
    let mut p = pooler(wide(), 0, 0);
    let pool = vec![c("a", 1200), c("b", 1000)];
    let m = p.try_lp(&s("clock"), &PairType::Xyk, &pool, &vec![c("a", 60), c("b", 100)]).unwrap().unwrap();
    assert_eq!(60, m.assets[0].amount);
    // 1000 / 1200 = 0.833..., floor(60 × 0.833...) = 49
    assert_eq!(49, m.assets[1].amount);
    assert_eq!(ProvidedLiquidityInfo { provided_amount_a: 60, provided_amount_b: 49 }, p.provided_liquidity_info);
}

#[test]
fn pooler_rejects_wrong_pair_type_and_caller() {
    let mut p = pooler(wide(), 0, 0);
    let pool = vec![c("a", 1000), c("b", 1000)];
    let bal = vec![c("a", 10), c("b", 10)];
    assert_eq!(Some(PoolerError::PairTypeMismatch), p.try_lp(&s("clock"), &PairType::Stable, &pool, &bal).err());
    assert_eq!(Some(PoolerError::NotClock), p.try_lp(&s("x"), &PairType::Xyk, &pool, &bal).err());
    let empty_pool = vec![c("a", 1000)];
    assert_eq!(Some(PoolerError::PoolRatioError), p.try_lp(&s("clock"), &PairType::Xyk, &empty_pool, &bal).err());
    let idle = p.try_lp(&s("clock"), &PairType::Xyk, &pool, &vec![]).unwrap();
    assert!(idle.is_none());
}

#[test]
fn withdraw_burns_floor_of_share() {
    let p = pooler(wide(), 0, 0);
    assert_eq!(Ok(333), p.withdraw(&s("holder"), Some(Decimal::permille(333)), 1000));
    assert_eq!(Ok(1000), p.withdraw(&s("holder"), None, 1000));
    assert_eq!(Err(PoolerError::Unauthorized), p.withdraw(&s("x"), None, 1000));
    assert_eq!(Err(PoolerError::InvalidPercentage), p.withdraw(&s("holder"), Some(Decimal::percent(101)), 1000));
    assert_eq!(Err(PoolerError::InvalidPercentage), p.withdraw(&s("holder"), Some(Decimal::zero()), 1000));
}

#[test]
fn double_sided_overflow_is_an_error() {
    let range = DecimalRange { min: Decimal::zero(), max: Decimal { atomics: u128::MAX } };
    let mut p = pooler(range, 0, 0);
    let pool = vec![c("a", 100_000_000_000_000_000_000), c("b", 1)];
    let r = p.try_lp(&s("clock"), &PairType::Xyk, &pool, &vec![c("a", 1), c("b", 10_000_000_000_000_000_000)]);
    assert_eq!(Some(PoolerError::FractionMulError), r.err());
}

#[test]
fn provided_amounts_overflow_is_an_error() {
    let mut p = pooler(wide(), 100, 100);
    p.provided_liquidity_info.provided_amount_a = u128::MAX;
    let pool = vec![c("a", 1000), c("b", 1000)];
    let r = p.try_lp(&s("clock"), &PairType::Xyk, &pool, &vec![c("a", 80)]);
    assert_eq!(Some(PoolerError::Overflow), r.err());
    assert_eq!(u128::MAX, p.provided_liquidity_info.provided_amount_a);
}
