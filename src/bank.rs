//! Coins and the bank transfers that move them.
use vstd::prelude::*;

verus! {

/// An amount of one denomination.
#[derive(Clone, Debug, PartialEq, Eq)]
pub struct Coin {
    pub denom: String,
    pub amount: u128,
}

/// A transfer of one coin to an address.
#[derive(Clone, Debug, PartialEq, Eq)]
pub struct BankSend {
    pub to_address: String,
    pub denom: String,
    pub amount: u128,
}

/// What a transfer does: receiver, denomination, amount.
pub type SendView = (Seq<char>, Seq<char>, int);

impl View for BankSend {
    type V = SendView;

    open spec fn view(&self) -> SendView {
        (self.to_address@, self.denom@, self.amount as int)
    }
}

impl Coin {
    pub open spec fn spec_view(&self) -> (Seq<char>, int) {
        (self.denom@, self.amount as int)
    }
}

/// The effects of a list of transfers.
pub open spec fn sends_view(v: Seq<BankSend>) -> Seq<SendView> {
    v.map_values(|m: BankSend| m@)
}

/// The total amount moved by a list of transfers.
pub open spec fn sends_total(p: Seq<SendView>) -> int
    decreases p.len(),
{
    if p.len() == 0 {
        0
    } else {
        sends_total(p.drop_last()) + p.last().2
    }
}

/// A transfer of `amount` of `denom` to `to_address`.
pub fn bank_send(to_address: &String, denom: &String, amount: u128) -> (r: BankSend)
    ensures
        r@ == (to_address@, denom@, amount as int),
{
    BankSend { to_address: to_address.clone(), denom: denom.clone(), amount }
}

/// Adds a transfer to a list, keeping the list's effects in step.
pub fn push_send(out: &mut Vec<BankSend>, m: BankSend)
    ensures
        sends_view(final(out)@) == sends_view(old(out)@).push(m@),
{
    out.push(m);
    proof {
        assert(sends_view(final(out)@) =~= sends_view(old(out)@).push(m@));
    }
}

} // verus!
