use vstd::prelude::*;

verus! {

/// A 32-byte value (a vault id or a hash), as two big-endian halves.
#[derive(Clone, Copy, Debug, PartialEq, Eq, Structural)]
pub struct Bytes32 {
    /// The first sixteen bytes.
    pub hi: u128,
    /// The last sixteen bytes.
    pub lo: u128,
}

/// An account or a contract on the network, by its kind and its 32-byte key.
#[derive(Clone, Copy, Debug, PartialEq, Eq, Structural)]
pub struct Address {
    /// The address names a contract rather than an account.
    pub is_contract: bool,
    /// The account's public key, or the contract's id.
    pub key: Bytes32,
}

/// Operational status of a vault.
#[derive(Clone, Copy, Debug, PartialEq, Eq, Structural)]
pub enum VaultStatus {
    /// Vault is fully operational and accepting transactions.
    Active,
    /// Vault operations are suspended.
    Paused,
}

/// Defines the target weight of a single asset within the vault's basket.
#[derive(Clone, Copy, Debug, PartialEq, Eq, Structural)]
pub struct AssetAllocation {
    /// Address of the supported asset.
    pub asset: Address,
    /// Target allocation weight in basis points (10,000 bps = 100.00%).
    pub target_bps: u32,
}

/// Configuration parameters of a vault.
#[derive(Debug)]
pub struct VaultConfig {
    /// Human-readable name of the vault.
    pub name: String,
    /// Hash of off-chain strategy metadata.
    pub metadata_hash: Bytes32,
    /// Address with administrative permissions (status changes, fee claims).
    pub manager: Address,
    /// The primary asset used for valuation.
    pub base_asset: Address,
    /// Address permitted to update target allocations.
    pub rebalance_authority: Address,
    /// Management fee charged on deposits, in basis points.
    pub management_fee_bps: u32,
    /// Current operational status for new deposits.
    pub deposit_status: VaultStatus,
    /// Current operational status for share redemptions.
    pub withdrawal_status: VaultStatus,
}

/// A historical record of a rebalancing event.
#[derive(Clone, Copy, Debug, PartialEq, Eq, Structural)]
pub struct RebalanceRecord {
    /// Ledger timestamp when the rebalance was committed.
    pub timestamp: u64,
    /// Hash of the asset allocation basket prior to this update.
    pub old_allocation_hash: Bytes32,
    /// Hash of the asset allocation basket after this update.
    pub new_allocation_hash: Bytes32,
}

/// What a deposit did: the shares it minted, the value that joined the
/// asset's balance, and the management fee it took.
#[derive(Clone, Copy, Debug, PartialEq, Eq, Structural)]
pub struct DepositReceipt {
    /// Shares minted to the depositor.
    pub shares: i128,
    /// The deposited amount less the fee.
    pub net_amount: i128,
    /// The management fee taken.
    pub fee: i128,
}

} // verus!
