//! The interchain router: sends each held coin to the party's receiver on a
//! remote chain, directly or through a packet-forwarding hop, keeping back
//! a reserve of the local fee denomination.
use crate::bank::Coin;
use crate::keyed::{find_key, lookup};
use crate::remote::{ForwardMetadata, PacketForwardMiddlewareConfig};
use vstd::prelude::*;

verus! {

/// The fee the transport charges per transfer, in the local fee denomination:
/// an acknowledgement fee and a timeout fee.
pub const DEFAULT_IBC_ACK_FEE_AMOUNT: u128 = 100_000;

pub const DEFAULT_IBC_TIMEOUT_FEE_AMOUNT: u128 = 100_000;

pub const NANOS_PER_SECOND: u64 = 1_000_000_000;

/// The local fee denomination.
pub open spec fn fee_denom() -> Seq<char> {
    "untrn"@
}

/// The port transfers leave from.
pub open spec fn transfer_port() -> Seq<char> {
    "transfer"@
}

/// Where a party's funds go on its own chain.
#[derive(Clone, Debug)]
pub struct DestinationConfig {
    pub local_to_destination_chain_channel_id: String,
    pub destination_receiver_addr: String,
    /// Seconds before a transfer times out.
    pub ibc_transfer_timeout: u64,
    /// Denominations that travel through a hop chain.
    pub denom_to_pfm_map: Vec<(String, PacketForwardMiddlewareConfig)>,
}

/// An interchain transfer; the transport's default fee is attached when it
/// is sent.
#[derive(Debug)]
pub struct IbcTransfer {
    pub source_port: String,
    pub source_channel: String,
    pub token: Coin,
    pub sender: String,
    pub receiver: String,
    /// Nanoseconds since the epoch.
    pub timeout_timestamp: u64,
    /// The hop's onward transfer, for denominations routed through a hop.
    pub forward: Option<ForwardMetadata>,
}

#[derive(Clone, Copy, Debug, PartialEq, Eq, Structural)]
pub enum RouterError {
    /// The timeout does not fit in a timestamp.
    TimeoutOverflow,
}

/// What a transfer does: source channel, denomination, amount, receiver,
/// and the hop's onward receiver and channel.
pub type TransferView = (Seq<char>, Seq<char>, int, Seq<char>, Option<(Seq<char>, Seq<char>)>);

pub open spec fn transfer_view(t: IbcTransfer) -> TransferView {
    (
        t.source_channel@,
        t.token.denom@,
        t.token.amount as int,
        t.receiver@,
        match t.forward {
            Some(f) => Some((f.receiver@, f.channel@)),
            None => None,
        },
    )
}

pub open spec fn transfers_view(v: Seq<IbcTransfer>) -> Seq<TransferView> {
    v.map_values(|t: IbcTransfer| transfer_view(t))
}

/// The fee reserve kept back for `n` transfers and the one that follows.
pub open spec fn fee_reserve(n: int) -> int {
    (1 + n) * (DEFAULT_IBC_ACK_FEE_AMOUNT + DEFAULT_IBC_TIMEOUT_FEE_AMOUNT)
}

/// What of a coin is sent: all of it, or for the fee denomination what
/// exceeds the reserve.
pub open spec fn sendable(c: Coin, reserve: int) -> Option<int> {
    if c.denom@ != fee_denom() {
        Some(c.amount as int)
    } else if c.amount > reserve {
        Some(c.amount - reserve)
    } else {
        None
    }
}

/// The transfer of `amount` of `denom`: through its hop where it has one.
pub open spec fn route(d: DestinationConfig, denom: Seq<char>, amount: int) -> TransferView {
    match lookup(d.denom_to_pfm_map@, denom) {
        Some(pfm) => (
            pfm.local_to_hop_chain_channel_id@,
            denom,
            amount,
            pfm.hop_chain_receiver_address@,
            Some((d.destination_receiver_addr@, pfm.hop_to_destination_chain_channel_id@)),
        ),
        None => (
            d.local_to_destination_chain_channel_id@,
            denom,
            amount,
            d.destination_receiver_addr@,
            None,
        ),
    }
}

/// The transfers for `coins`, in order, with `reserve` kept back.
pub open spec fn route_plan(d: DestinationConfig, coins: Seq<Coin>, reserve: int) -> Seq<
    TransferView,
>
    decreases coins.len(),
{
    if coins.len() == 0 {
        Seq::empty()
    } else {
        let prev = route_plan(d, coins.drop_last(), reserve);
        match sendable(coins.last(), reserve) {
            Some(a) => prev.push(route(d, coins.last().denom@, a)),
            None => prev,
        }
    }
}

impl DestinationConfig {
    /// Transfers of `coins` to the destination, each timing out
    /// `ibc_transfer_timeout` seconds after `current_time` (nanoseconds).
    pub fn get_ibc_transfer_messages_for_coins(
        &self,
        coins: &Vec<Coin>,
        current_time: u64,
        sender_address: &String,
    ) -> (r: Result<Vec<IbcTransfer>, RouterError>)
        ensures
            match r {
                Ok(v) => {
                    &&& current_time + self.ibc_transfer_timeout * NANOS_PER_SECOND <= u64::MAX
                    &&& transfers_view(v@) == route_plan(*self, coins@, fee_reserve(coins@.len() as int))
                    &&& forall|i: int|
                        0 <= i < v@.len() ==> {
                            &&& (#[trigger] v@[i]).sender@ == sender_address@
                            &&& v@[i].source_port@ == transfer_port()
                            &&& v@[i].timeout_timestamp == current_time
                                + self.ibc_transfer_timeout * NANOS_PER_SECOND
                            &&& match v@[i].forward {
                                Some(f) => f.port@ == transfer_port(),
                                None => true,
                            }
                        }
                },
                Err(e) => e == RouterError::TimeoutOverflow && current_time
                    + self.ibc_transfer_timeout * NANOS_PER_SECOND > u64::MAX,
            },
    {
        let timeout = match self.ibc_transfer_timeout.checked_mul(NANOS_PER_SECOND) {
            Some(t) => match current_time.checked_add(t) {
                Some(x) => x,
                None => return Err(RouterError::TimeoutOverflow),
            },
            None => {
                proof {
                    assert(self.ibc_transfer_timeout * NANOS_PER_SECOND <= current_time
                        + self.ibc_transfer_timeout * NANOS_PER_SECOND);
                }
                return Err(RouterError::TimeoutOverflow);
            },
        };
        let fee_literal = "untrn".to_owned();
        let port = "transfer";
        let ghost n = coins@.len() as int;
        let len = coins.len();
        assert(len as int <= u64::MAX);
        assert((1 + len as int) * 200_000 <= u128::MAX) by (nonlinear_arith)
            requires
                len as int <= u64::MAX,
                0 <= len;
        let reserve: u128 = (1 + len as u128) * (DEFAULT_IBC_ACK_FEE_AMOUNT
            + DEFAULT_IBC_TIMEOUT_FEE_AMOUNT);
        let mut out: Vec<IbcTransfer> = Vec::new();
        let mut i: usize = 0;
        proof {
            assert(coins@.take(0) =~= Seq::<Coin>::empty());
            assert(transfers_view(out@) =~= Seq::<TransferView>::empty());
        }
        while i < coins.len()
            invariant
                i <= coins@.len(),
                n == coins@.len(),
                reserve == fee_reserve(n),
                fee_literal@ == fee_denom(),
                port@ == transfer_port(),
                timeout == current_time + self.ibc_transfer_timeout * NANOS_PER_SECOND,
                transfers_view(out@) == route_plan(*self, coins@.take(i as int), reserve as int),
                forall|k: int|
                    0 <= k < out@.len() ==> {
                        &&& (#[trigger] out@[k]).sender@ == sender_address@
                        &&& out@[k].source_port@ == transfer_port()
                        &&& out@[k].timeout_timestamp == timeout
                        &&& match out@[k].forward {
                            Some(f) => f.port@ == transfer_port(),
                            None => true,
                        }
                    },
            decreases coins@.len() - i,
        {
            proof {
                assert(coins@.take(i as int + 1).drop_last() =~= coins@.take(i as int));
            }
            let c = &coins[i];
            let amount: Option<u128> = if !(c.denom == fee_literal) {
                Some(c.amount)
            } else if c.amount > reserve {
                Some(c.amount - reserve)
            } else {
                None
            };
            if let Some(a) = amount {
                let t = match find_key(&self.denom_to_pfm_map, &c.denom) {
                    Some(k) => {
                        let pfm = &self.denom_to_pfm_map[k].1;
                        IbcTransfer {
                            source_port: port.to_owned(),
                            source_channel: pfm.local_to_hop_chain_channel_id.clone(),
                            token: Coin { denom: c.denom.clone(), amount: a },
                            sender: sender_address.clone(),
                            receiver: pfm.hop_chain_receiver_address.clone(),
                            timeout_timestamp: timeout,
                            forward: Some(
                                ForwardMetadata {
                                    receiver: self.destination_receiver_addr.clone(),
                                    port: port.to_owned(),
                                    channel: pfm.hop_to_destination_chain_channel_id.clone(),
                                },
                            ),
                        }
                    },
                    None => IbcTransfer {
                        source_port: port.to_owned(),
                        source_channel: self.local_to_destination_chain_channel_id.clone(),
                        token: Coin { denom: c.denom.clone(), amount: a },
                        sender: sender_address.clone(),
                        receiver: self.destination_receiver_addr.clone(),
                        timeout_timestamp: timeout,
                        forward: None,
                    },
                };
                let ghost before = out@;
                out.push(t);
                proof {
                    assert(transfers_view(out@) =~= transfers_view(before).push(
                        transfer_view(out@.last()),
                    ));
                    assert forall|k: int| 0 <= k < before.len() implies out@[k] == before[k] by {}
                }
            }
            i = i + 1;
        }
        proof {
            assert(coins@.take(i as int) =~= coins@);
        }
        Ok(out)
    }
}

} // verus!
