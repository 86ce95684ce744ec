//! Records exchanged with remote chains: interchain-account handshakes,
//! acknowledgements and packet-forward routing.
use vstd::prelude::*;

verus! {

/// The version string of an opened interchain account.
#[derive(Clone, Debug)]
pub struct OpenAckVersion {
    pub version: String,
    pub controller_connection_id: String,
    pub host_connection_id: String,
    pub address: String,
    pub encoding: String,
    pub tx_type: String,
}

/// A transaction sent to a host chain, kept until it is acknowledged.
#[derive(Clone, Debug)]
pub struct SudoPayload {
    pub message: String,
    pub port_id: String,
}

/// How an interchain transaction ended.
#[derive(Clone, Debug)]
pub enum AcknowledgementResult {
    /// The message item types of a successful transaction.
    Success(Vec<String>),
    /// The payload and the error details.
    Error(String, String),
    /// The payload of a transaction that timed out.
    Timeout(String),
}

/// The channels that route a denomination back through a hop chain.
#[derive(Clone, Debug)]
pub struct PacketForwardMiddlewareConfig {
    pub local_to_hop_chain_channel_id: String,
    pub hop_to_destination_chain_channel_id: String,
    pub hop_chain_receiver_address: String,
}

#[derive(Clone, Debug)]
pub struct PacketMetadata {
    pub forward: Option<ForwardMetadata>,
}

#[derive(Clone, Debug)]
pub struct ForwardMetadata {
    pub receiver: String,
    pub port: String,
    pub channel: String,
}

/// Per denomination, how to unwind it to each party's chain.
#[derive(Clone, Debug)]
pub struct PfmUnwindingConfig {
    pub party_1_pfm_map: Vec<(String, PacketForwardMiddlewareConfig)>,
    pub party_2_pfm_map: Vec<(String, PacketForwardMiddlewareConfig)>,
}

/// Per denomination, how to unwind it to the single party's chain.
#[derive(Clone, Debug)]
pub struct SinglePartyPfmUnwindingConfig {
    pub party_pfm_map: Vec<(String, PacketForwardMiddlewareConfig)>,
}

/// A receiver on the local chain.
#[derive(Clone, Debug)]
pub struct NativeReceiver {
    pub address: String,
}

/// Where a liquid-staked denomination comes from.
#[derive(Clone, Debug)]
pub struct LsInfo {
    pub ls_denom: String,
    pub ls_denom_on_neutron: String,
    pub ls_chain_to_neutron_channel_id: String,
    pub ls_neutron_connection_id: String,
}

/// The fixed fields of a liquid staker.
#[derive(Clone, Debug)]
pub struct PresetLsFields {
    pub ls_code: u64,
    pub label: String,
    pub ls_denom: String,
    pub stride_neutron_ibc_transfer_channel_id: String,
    pub neutron_stride_ibc_connection_id: String,
    pub autopilot_format: String,
}

/// The state of an agent that moves funds through an interchain account.
#[derive(Clone, Copy, Debug, PartialEq, Eq, Structural)]
pub enum ContractState {
    Instantiated,
    IcaCreated,
    Complete,
}

/// Queries every remote-facing agent answers.
#[derive(Clone, Copy, Debug, PartialEq, Eq, Structural)]
pub enum QueryMsg {
    ContractState,
    DepositAddress,
}

/// Queries a covenant answers about where funds go.
#[derive(Clone, Copy, Debug, PartialEq, Eq, Structural)]
pub enum CovenantQueryMsg {
    DepositAddress,
}

/// Queries of a public-goods splitter.
#[derive(Clone, Copy, Debug, PartialEq, Eq, Structural)]
pub enum ProtocolGuildQueryMsg {
    PublicGoodsSplit,
}

/// Which chain fact a test context looks up.
#[derive(Clone, Copy, Debug, PartialEq, Eq, Structural)]
pub enum QueryType {
    TransferChannel,
    Connection,
    CCVChannel,
    IBCDenom,
    AdminAddr,
    NativeDenom,
    RequestBuilder,
}

/// Code ids of the agents of a single-party covenant.
#[derive(Clone, Copy, Debug, PartialEq, Eq, Structural)]
pub struct CovenantContractCodeIds {
    pub ibc_forwarder_code: u64,
    pub holder_code: u64,
    pub clock_code: u64,
    pub native_splitter_code: u64,
    pub liquid_pooler_code: u64,
    pub liquid_staker_code: u64,
    pub interchain_router_code: u64,
}

/// Code ids of the agents of a swap covenant.
#[derive(Clone, Copy, Debug, PartialEq, Eq, Structural)]
pub struct SwapCovenantContractCodeIds {
    pub ibc_forwarder_code: u64,
    pub interchain_router_code: u64,
    pub splitter_code: u64,
    pub holder_code: u64,
    pub clock_code: u64,
}

} // verus!
