//! The parties of a swap covenant and how their deposits are refunded.
use crate::bank::{bank_send, BankSend, Coin};
use crate::expiry::BlockInfo;
use crate::router::{DestinationConfig, RouterError, NANOS_PER_SECOND};
use vstd::prelude::*;

verus! {

/// Where a party receives funds.
#[derive(Clone, Debug)]
pub enum ReceiverConfig {
    /// On the local chain, at this address.
    Native(String),
    /// On a remote chain.
    Ibc(DestinationConfig),
}

#[derive(Clone, Debug)]
pub struct CovenantParty {
    /// The party's authorized address.
    pub addr: String,
    /// The denomination the party provides.
    pub native_denom: String,
    pub receiver_config: ReceiverConfig,
}

#[derive(Clone, Debug)]
pub struct CovenantPartiesConfig {
    pub party_a: CovenantParty,
    pub party_b: CovenantParty,
}

/// A plain interchain transfer of one coin.
#[derive(Debug)]
pub struct IbcMsgTransfer {
    pub channel_id: String,
    pub to_address: String,
    pub amount: Coin,
    /// Nanoseconds since the epoch.
    pub timeout_timestamp: u64,
}

/// A refund: a local bank transfer or an interchain one.
#[derive(Debug)]
pub enum RefundMsg {
    Bank(BankSend),
    Ibc(IbcMsgTransfer),
}

#[derive(Clone, Copy, Debug, PartialEq, Eq, Structural)]
pub enum PartyError {
    Unauthorized,
}

impl CovenantParty {
    /// Returns `amount` of the party's denomination to it: locally to its
    /// native receiver, or over its channel to its own address, timing out
    /// the configured number of seconds after `block`.
    pub fn get_refund_msg(self, amount: u128, block: &BlockInfo) -> (r: Result<RefundMsg, RouterError>)
        ensures
            match self.receiver_config {
                ReceiverConfig::Native(addr) => match r {
                    Ok(RefundMsg::Bank(m)) => m@ == (addr@, self.native_denom@, amount as int),
                    _ => false,
                },
                ReceiverConfig::Ibc(d) => match r {
                    Ok(RefundMsg::Ibc(m)) => {
                        &&& m.channel_id@ == d.local_to_destination_chain_channel_id@
                        &&& m.to_address@ == self.addr@
                        &&& m.amount.denom@ == self.native_denom@
                        &&& m.amount.amount == amount
                        &&& m.timeout_timestamp == block.time + d.ibc_transfer_timeout
                            * NANOS_PER_SECOND
                    },
                    Ok(RefundMsg::Bank(_)) => false,
                    Err(e) => e == RouterError::TimeoutOverflow && block.time
                        + d.ibc_transfer_timeout * NANOS_PER_SECOND > u64::MAX,
                },
            },
    {
        match self.receiver_config {
            ReceiverConfig::Native(addr) => Ok(
                RefundMsg::Bank(bank_send(&addr, &self.native_denom, amount)),
            ),
            ReceiverConfig::Ibc(d) => {
                let timeout = match d.ibc_transfer_timeout.checked_mul(NANOS_PER_SECOND) {
                    Some(t) => match block.time.checked_add(t) {
                        Some(x) => x,
                        None => return Err(RouterError::TimeoutOverflow),
                    },
                    None => return Err(RouterError::TimeoutOverflow),
                };
                Ok(
                    RefundMsg::Ibc(
                        IbcMsgTransfer {
                            channel_id: d.local_to_destination_chain_channel_id,
                            to_address: self.addr,
                            amount: Coin { denom: self.native_denom, amount },
                            timeout_timestamp: timeout,
                        },
                    ),
                )
            },
        }
    }
}

impl CovenantPartiesConfig {
    /// The party whose address is `caller`, party A first.
    pub fn match_caller_party(&self, caller: &String) -> (r: Result<&CovenantParty, PartyError>)
        ensures
            r == if self.party_a.addr@ == caller@ {
                Ok::<&CovenantParty, PartyError>(&self.party_a)
            } else if self.party_b.addr@ == caller@ {
                Ok(&self.party_b)
            } else {
                Err(PartyError::Unauthorized)
            },
    {
        if self.party_a.addr == *caller {
            Ok(&self.party_a)
        } else if self.party_b.addr == *caller {
            Ok(&self.party_b)
        } else {
            Err(PartyError::Unauthorized)
        }
    }
}

} // verus!
