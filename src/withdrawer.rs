//! A plain holder: keeps funds until its withdrawer takes them.
use crate::bank::Coin;
use vstd::prelude::*;

verus! {

#[derive(Clone, Copy, Debug, PartialEq, Eq, Structural)]
pub enum WithdrawError {
    Unauthorized,
}

/// Only the withdrawer may withdraw: the coins it names, or with none named
/// everything held (`balances`).
pub fn withdraw(
    withdrawer: &String,
    sender: &String,
    quantity: Option<Vec<Coin>>,
    balances: Vec<Coin>,
) -> (r: Result<Vec<Coin>, WithdrawError>)
    ensures
        match r {
            Ok(v) => sender@ == withdrawer@ && v == match quantity {
                Some(q) => q,
                None => balances,
            },
            Err(e) => sender@ != withdrawer@ && e == WithdrawError::Unauthorized,
        },
{
    if *sender != *withdrawer {
        return Err(WithdrawError::Unauthorized);
    }
    match quantity {
        Some(q) => Ok(q),
        None => Ok(balances),
    }
}

} // verus!
