use vstd::prelude::*;

verus! {

/// The errors that vault operations report.
#[derive(Clone, Copy, Debug, PartialEq, Eq, Structural)]
pub enum ContractError {
    /// The party whose authorization the operation needs has not given it.
    Unauthorised,
    /// No vault is registered under the requested id.
    VaultNotFound,
    /// The vault is in a state that does not allow the operation.
    InvalidVaultState,
    /// The asset is not part of the vault's basket.
    InvalidAsset,
    /// The same asset occurs more than once in an allocation list.
    DuplicateAsset,
    /// A single allocation weight is invalid.
    InvalidAllocation,
    /// The allocation weights do not add up to 10,000 basis points.
    AllocationTotalMismatch,
    /// Deposits into the vault are paused.
    DepositsPaused,
    /// Withdrawals from the vault are paused.
    WithdrawalsPaused,
    /// The amount of a deposit or of a withdrawal is not strictly positive.
    ZeroAmount,
    /// The holder owns fewer shares than it asked to redeem.
    InsufficientShares,
    /// The vault holds too little of an underlying asset.
    InsufficientBalance,
    /// The management fee is above the cap of 500 basis points.
    FeeTooHigh,
    /// A vault with this id already exists.
    DuplicateVault,
    /// The rebalance request is inconsistent.
    InvalidRebalance,
    /// A transfer of an underlying asset failed.
    AssetTransferFailure,
    /// An arithmetic step left the range of its integer type.
    MathOverflow,
}

} // verus!
