use covenant::decimal::Decimal;
use covenant::lper::{Asset, AssetData, AssetInfo};

#[test]
fn mul_floor_rounds_down() {
    assert_eq!(Some(333), Decimal::permille(333).checked_mul_floor(1000));
    assert_eq!(Some(0), Decimal::permille(1).checked_mul_floor(999));
    assert_eq!(Some(u128::MAX), Decimal::one().checked_mul_floor(u128::MAX));
    assert_eq!(None, Decimal::percent(200).checked_mul_floor(u128::MAX));
    let big = Decimal { atomics: 3_000_000_000_000_000_000_000 };
    assert_eq!(Some(3_000_000), big.checked_mul_floor(1000));
}

#[test]
fn from_ratio_floors() {
    assert_eq!(Some(Decimal::permille(1120)), Decimal::checked_from_ratio(112, 100));
    assert_eq!(Some(Decimal { atomics: 333_333_333_333_333_333 }), Decimal::checked_from_ratio(1, 3));
    assert_eq!(Some(Decimal::zero()), Decimal::checked_from_ratio(0, 7));
    assert_eq!(None, Decimal::checked_from_ratio(u128::MAX, 1));
    let near = Decimal::checked_from_ratio(u128::MAX, u128::MAX - 1).unwrap();
    assert_eq!(Decimal::one(), near);
}

#[test]
fn checked_add_and_sub() {
    assert_eq!(Some(Decimal::one()), Decimal::percent(40).checked_add(Decimal::percent(60)));
    assert_eq!(None, Decimal::percent(40).checked_sub(Decimal::percent(60)));
    assert_eq!(Some(Decimal::percent(20)), Decimal::percent(60).checked_sub(Decimal::percent(40)));
    assert!(Decimal::zero().is_zero());
}

#[test]
fn native_asset_denom() {
    let native = AssetData {
        native_asset_info: Asset { info: AssetInfo::NativeToken { denom: "uatom".to_string() }, amount: 5 },
        ls_asset_denom: "stuatom".to_string(),
    };
    assert_eq!(Some("uatom".to_string()), native.try_get_native_asset_denom());
    let token = AssetData {
        native_asset_info: Asset { info: AssetInfo::Token { contract_addr: "cw20".to_string() }, amount: 5 },
        ls_asset_denom: "stuatom".to_string(),
    };
    assert_eq!(None, token.try_get_native_asset_denom());
}
