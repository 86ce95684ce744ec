use covenant::bank::Coin;
use covenant::withdrawer::{withdraw, WithdrawError};
use covenant::outpost::{
    double_sided_join, get_paid_denom_amount, min_share_amount, plan_provision, DoubleSidedJoin,
    OutpostError, OutpostProvision,
};

fn c(d: &str, amount: u128) -> Coin {
    Coin { denom: d.to_string(), amount }
}

#[test]
fn paid_amount_takes_first_match() {
    let funds = vec![c("x", 1), c("a", 5), c("a", 9)];
    assert_eq!(5, get_paid_denom_amount(&funds, &"a".to_string()));
    assert_eq!(0, get_paid_denom_amount(&funds, &"b".to_string()));
}

#[test]
fn min_shares_keep_ninety_seven_percent() {
    assert_eq!(97, min_share_amount(100));
    assert_eq!(96, min_share_amount(99));
    assert_eq!(u128::MAX / 100 * 97 + (u128::MAX % 100) * 97 / 100, min_share_amount(u128::MAX));
}

#[test]
fn double_sided_join_takes_smaller_share() {
    // pool 1000 / 2000 with 100 shares; paying 100 and 100 gives 10 and 5
    let j = double_sided_join(100, 100, 1000, 2000, 100).unwrap();
    assert_eq!(DoubleSidedJoin { share_out_amount: 5, min_share_amount: 4 }, j);
    assert_eq!(Err(OutpostError::EmptyPool), double_sided_join(1, 1, 0, 1, 1));
    assert_eq!(Err(OutpostError::Overflow), double_sided_join(u128::MAX, 1, 1, 1, 2));
}

#[test]
fn provision_checks_price_and_funds() {
    let p1 = c("a", 1000);
    let p2 = c("b", 2000);
    let both = vec![c("a", 100), c("b", 100)];
    assert_eq!(
        Ok(OutpostProvision::DoubleSided(DoubleSidedJoin { share_out_amount: 5, min_share_amount: 4 })),
        plan_provision(&p1, &p2, 100, &both)
    );
    assert_eq!(Ok(OutpostProvision::SingleSidedSecond(7)), plan_provision(&p1, &p2, 100, &vec![c("b", 7)]));
    assert_eq!(Ok(OutpostProvision::SingleSidedFirst(3)), plan_provision(&p1, &p2, 100, &vec![c("a", 3)]));
    assert_eq!(Err(OutpostError::NoFundsProvided), plan_provision(&p1, &p2, 100, &vec![]));
    assert_eq!(Err(OutpostError::PriceRangeError), plan_provision(&p2, &p1, 100, &both));
    assert_eq!(Err(OutpostError::EmptyPool), plan_provision(&p1, &c("b", 0), 100, &both));
}

#[test]
fn withdrawer_takes_named_coins_or_everything() {
    let w = "withdrawer".to_string();
    let held = vec![c("a", 5), c("b", 6)];
    assert_eq!(Ok(held.clone()), withdraw(&w, &w, None, held.clone()));
    assert_eq!(Ok(vec![c("a", 1)]), withdraw(&w, &w, Some(vec![c("a", 1)]), held.clone()));
    assert_eq!(Err(WithdrawError::Unauthorized), withdraw(&w, &"x".to_string(), None, held));
}
