//! Asset descriptions used by the liquidity-providing contracts.
use vstd::prelude::*;

verus! {

/// Where an asset lives: a token contract or a native denomination.
#[derive(Clone, Debug)]
pub enum AssetInfo {
    Token { contract_addr: String },
    NativeToken { denom: String },
}

/// An amount of an asset.
#[derive(Clone, Debug)]
pub struct Asset {
    pub info: AssetInfo,
    pub amount: u128,
}

/// The native asset, known in advance, and the liquid-staked one, of which
/// only the denomination is known.
#[derive(Clone, Debug)]
pub struct AssetData {
    pub native_asset_info: Asset,
    pub ls_asset_denom: String,
}

/// The address of a liquidity position.
#[derive(Clone, Debug)]
pub struct LPInfo {
    pub addr: String,
}

impl AssetData {
    /// The native asset's denomination; `None` where it is a token contract.
    pub fn try_get_native_asset_denom(self) -> (r: Option<String>)
        ensures
            r == match self.native_asset_info.info {
                AssetInfo::Token { .. } => None::<String>,
                AssetInfo::NativeToken { denom } => Some(denom),
            },
    {
        match self.native_asset_info.info {
            AssetInfo::Token { contract_addr: _ } => None,
            AssetInfo::NativeToken { denom } => Some(denom),
        }
    }
}

} // verus!
