use vstd::prelude::*;

use crate::digest::basket_hash;
use crate::errors::ContractError;
use crate::math::{
    fee_of, fits_i128, lemma_div_trunc_bounds, lemma_fee_bounds, proportional_amount, proportional_amount_defined, shares_to_mint,
    shares_to_mint_defined, BPS_LIMIT,
};
use crate::types::{Address, AssetAllocation, Bytes32, DepositReceipt, RebalanceRecord, VaultConfig, VaultStatus};

verus! {

/// The highest management fee a vault may charge, in basis points (5%).
pub const MAX_MANAGEMENT_FEE_BPS: u32 = 500;

/// The abstract state of one vault.
pub struct VaultView {
    /// The vault's configuration.
    pub config: VaultConfig,
    /// The basket: assets and target weights, in order.
    pub allocations: Seq<AssetAllocation>,
    /// Shares issued in all.
    pub total_shares: i128,
    /// Shares of every holder (0 for one that holds none).
    pub user_shares: Map<Address, i128>,
    /// The sum of the shares of all holders.
    pub user_shares_total: int,
    /// Balance of every asset that the vault holds for its shareholders.
    pub asset_balances: Map<Address, i128>,
    /// Management fees accrued per asset and not yet claimed.
    pub accrued_fees: Map<Address, i128>,
    /// Past rebalances, oldest first.
    pub history: Seq<RebalanceRecord>,
}

/// Every address maps to 0.
pub open spec fn zero_map() -> Map<Address, i128> {
    Map::new(|k: Address| true, |k: Address| 0i128)
}

/// `asset` is part of the basket.
pub open spec fn holds_asset(allocations: Seq<AssetAllocation>, asset: Address) -> bool {
    exists|i: int| 0 <= i < allocations.len() && allocations[i].asset == asset
}

/// The assets of the basket are pairwise distinct.
pub open spec fn distinct_assets(allocations: Seq<AssetAllocation>) -> bool {
    forall|i: int, j: int|
        0 <= i < allocations.len() && 0 <= j < allocations.len() && i != j ==> allocations[i].asset
            != allocations[j].asset
}

/// The sum of the target weights of the basket.
pub open spec fn bps_sum(allocations: Seq<AssetAllocation>) -> int
    decreases allocations.len(),
{
    if allocations.len() == 0 {
        0
    } else {
        bps_sum(allocations.drop_last()) + allocations.last().target_bps
    }
}

/// The most allocations a basket may list. Every weight that counts is at
/// least one basis point, so no more than 10,000 assets can carry weight.
pub const MAX_BASKET_ASSETS: usize = 10_000;

/// The outcome of validating a basket: too many allocations, then a repeated
/// asset, then weights that do not add up to 10,000 basis points.
pub open spec fn allocation_check(allocations: Seq<AssetAllocation>) -> Result<(), ContractError> {
    if allocations.len() > MAX_BASKET_ASSETS {
        Err(ContractError::InvalidAllocation)
    } else if !distinct_assets(allocations) {
        Err(ContractError::DuplicateAsset)
    } else if bps_sum(allocations) != BPS_LIMIT {
        Err(ContractError::AllocationTotalMismatch)
    } else {
        Ok(())
    }
}

/// The sum of the balances of the basket's assets, in basket order.
pub open spec fn basket_value(balances: Map<Address, i128>, allocations: Seq<AssetAllocation>) -> int
    decreases allocations.len(),
{
    if allocations.len() == 0 {
        0
    } else {
        basket_value(balances, allocations.drop_last()) + balances[allocations.last().asset]
    }
}

/// Every running total of `basket_value` is an `i128`.
pub open spec fn basket_value_fits(balances: Map<Address, i128>, allocations: Seq<AssetAllocation>) -> bool {
    forall|n: int| 0 <= n <= allocations.len() ==> fits_i128(#[trigger] basket_value(balances, allocations.take(n)))
}

/// A vault that the library's rules can produce: a valid basket, a fee within
/// the cap, as many shares issued as holders hold, no holding above that
/// total, and no negative holding, balance or accrued fee.
pub open spec fn vault_sound(v: VaultView) -> bool {
    &&& allocation_check(v.allocations) == Ok::<(), ContractError>(())
    &&& v.config.management_fee_bps <= MAX_MANAGEMENT_FEE_BPS
    &&& v.total_shares == v.user_shares_total
    &&& forall|k: Address| 0 <= #[trigger] v.user_shares[k] <= v.total_shares
    &&& forall|k: Address| #[trigger] v.asset_balances[k] >= 0
    &&& forall|k: Address| #[trigger] v.accrued_fees[k] >= 0
}

/// Every registered vault is sound.
pub open spec fn registry_sound(vaults: Map<Bytes32, VaultView>) -> bool {
    forall|id: Bytes32| #[trigger] vaults.dom().contains(id) ==> vault_sound(vaults[id])
}

// ---------------------------------------------------------------- creation

/// The error that `create_vault` reports, if any.
pub open spec fn create_error(
    vaults: Map<Bytes32, VaultView>,
    vault_id: Bytes32,
    management_fee_bps: u32,
    allocations: Seq<AssetAllocation>,
) -> Option<ContractError> {
    if vaults.dom().contains(vault_id) {
        Some(ContractError::DuplicateVault)
    } else if management_fee_bps > MAX_MANAGEMENT_FEE_BPS {
        Some(ContractError::FeeTooHigh)
    } else {
        match allocation_check(allocations) {
            Err(e) => Some(e),
            Ok(_) => None,
        }
    }
}

/// A new vault: both operations active, no share issued, nothing held.
pub open spec fn created(config: VaultConfig, allocations: Seq<AssetAllocation>) -> VaultView {
    VaultView {
        config,
        allocations,
        total_shares: 0,
        user_shares: zero_map(),
        user_shares_total: 0,
        asset_balances: zero_map(),
        accrued_fees: zero_map(),
        history: Seq::empty(),
    }
}

// ---------------------------------------------------------------- deposits

/// The error that `deposit` reports before any arithmetic, if any.
pub open spec fn deposit_error(
    vaults: Map<Bytes32, VaultView>,
    vault_id: Bytes32,
    user: Address,
    asset: Address,
    amount: int,
    signers: Seq<Address>,
) -> Option<ContractError> {
    if !signers.contains(user) {
        Some(ContractError::Unauthorised)
    } else if amount <= 0 {
        Some(ContractError::ZeroAmount)
    } else if !vaults.dom().contains(vault_id) {
        Some(ContractError::VaultNotFound)
    } else if vaults[vault_id].config.deposit_status == VaultStatus::Paused {
        Some(ContractError::DepositsPaused)
    } else if !holds_asset(vaults[vault_id].allocations, asset) {
        Some(ContractError::InvalidAsset)
    } else {
        None
    }
}

/// The management fee taken from a deposit of `amount`.
pub open spec fn deposit_fee(v: VaultView, amount: int) -> int {
    if v.config.management_fee_bps > 0 {
        fee_of(amount, v.config.management_fee_bps as int)
    } else {
        0
    }
}

/// The shares minted for a deposit of `amount`: those of its net value,
/// priced against the basket value before the deposit.
pub open spec fn deposit_shares(v: VaultView, amount: int) -> int {
    shares_to_mint(
        amount - deposit_fee(v, amount),
        v.total_shares as int,
        basket_value(v.asset_balances, v.allocations),
    )
}

/// Every step of a deposit of `amount` stays inside the integer types.
pub open spec fn deposit_in_range(v: VaultView, user: Address, asset: Address, amount: int) -> bool {
    let fee = deposit_fee(v, amount);
    let shares = deposit_shares(v, amount);
    &&& (v.config.management_fee_bps > 0 ==> fits_i128(amount * v.config.management_fee_bps))
    &&& basket_value_fits(v.asset_balances, v.allocations)
    &&& shares_to_mint_defined(
        amount - fee,
        v.total_shares as int,
        basket_value(v.asset_balances, v.allocations),
    )
    &&& fits_i128(v.total_shares + shares)
    &&& fits_i128(v.user_shares[user] + shares)
    &&& fits_i128(v.asset_balances[asset] + (amount - fee))
    &&& (fee > 0 ==> fits_i128(v.accrued_fees[asset] + fee))
}

/// The vault after a deposit of `amount` of `asset` by `user`: the minted
/// shares are issued to the user, the net value joins the asset's balance and
/// the fee joins the asset's accrued fees.
pub open spec fn deposited(v: VaultView, user: Address, asset: Address, amount: int) -> VaultView {
    let fee = deposit_fee(v, amount);
    let shares = deposit_shares(v, amount);
    VaultView {
        total_shares: (v.total_shares + shares) as i128,
        user_shares: v.user_shares.insert(user, (v.user_shares[user] + shares) as i128),
        user_shares_total: v.user_shares_total + shares,
        asset_balances: v.asset_balances.insert(asset, (v.asset_balances[asset] + (amount - fee)) as i128),
        accrued_fees: if fee > 0 {
            v.accrued_fees.insert(asset, (v.accrued_fees[asset] + fee) as i128)
        } else {
            v.accrued_fees
        },
        ..v
    }
}

/// What `deposit` returns.
pub open spec fn deposit_result(
    vaults: Map<Bytes32, VaultView>,
    vault_id: Bytes32,
    user: Address,
    asset: Address,
    amount: int,
    signers: Seq<Address>,
) -> Result<DepositReceipt, ContractError> {
    match deposit_error(vaults, vault_id, user, asset, amount, signers) {
        Some(e) => Err(e),
        None => {
            let v = vaults[vault_id];
            if deposit_in_range(v, user, asset, amount) {
                Ok(
                    DepositReceipt {
                        shares: deposit_shares(v, amount) as i128,
                        net_amount: (amount - deposit_fee(v, amount)) as i128,
                        fee: deposit_fee(v, amount) as i128,
                    },
                )
            } else {
                Err(ContractError::MathOverflow)
            }
        },
    }
}

// ---------------------------------------------------------------- withdrawals

/// The error that `withdraw` reports before any arithmetic, if any.
pub open spec fn withdraw_error(
    vaults: Map<Bytes32, VaultView>,
    vault_id: Bytes32,
    user: Address,
    shares_to_burn: int,
    signers: Seq<Address>,
) -> Option<ContractError> {
    if !signers.contains(user) {
        Some(ContractError::Unauthorised)
    } else if shares_to_burn <= 0 {
        Some(ContractError::ZeroAmount)
    } else if !vaults.dom().contains(vault_id) {
        Some(ContractError::VaultNotFound)
    } else if vaults[vault_id].config.withdrawal_status == VaultStatus::Paused {
        Some(ContractError::WithdrawalsPaused)
    } else if vaults[vault_id].user_shares[user] < shares_to_burn {
        Some(ContractError::InsufficientShares)
    } else {
        None
    }
}

/// Paying out the basket in order for `shares_to_burn` of `total_shares`
/// shares: each asset gives its proportional part of its current balance; a
/// positive part leaves the balance. Every asset is listed with the amount
/// it pays (0 when its part is not positive). `None` when a step leaves
/// `i128`.
pub open spec fn payouts(
    allocations: Seq<AssetAllocation>,
    balances: Map<Address, i128>,
    shares_to_burn: int,
    total_shares: int,
) -> Option<(Map<Address, i128>, Seq<(Address, i128)>)>
    decreases allocations.len(),
{
    if allocations.len() == 0 {
        Some((balances, Seq::empty()))
    } else {
        match payouts(allocations.drop_last(), balances, shares_to_burn, total_shares) {
            None => None,
            Some(state) => {
                let asset = allocations.last().asset;
                let balance = state.0[asset];
                if !proportional_amount_defined(shares_to_burn, total_shares, balance as int) {
                    None
                } else {
                    let amount = proportional_amount(shares_to_burn, total_shares, balance as int);
                    if amount <= 0 {
                        Some((state.0, state.1.push((asset, 0i128))))
                    } else if !fits_i128(balance - amount) {
                        None
                    } else {
                        Some(
                            (
                                state.0.insert(asset, (balance - amount) as i128),
                                state.1.push((asset, amount as i128)),
                            ),
                        )
                    }
                }
            },
        }
    }
}

/// Every step of a withdrawal stays inside `i128`.
pub open spec fn withdraw_in_range(v: VaultView, shares_to_burn: int) -> bool {
    &&& payouts(v.allocations, v.asset_balances, shares_to_burn, v.total_shares as int) is Some
    &&& fits_i128(v.total_shares - shares_to_burn)
}

/// What `withdraw` returns: the assets and amounts paid out.
pub open spec fn withdraw_result(
    vaults: Map<Bytes32, VaultView>,
    vault_id: Bytes32,
    user: Address,
    shares_to_burn: int,
    signers: Seq<Address>,
) -> Result<Seq<(Address, i128)>, ContractError> {
    match withdraw_error(vaults, vault_id, user, shares_to_burn, signers) {
        Some(e) => Err(e),
        None => {
            if withdraw_in_range(vaults[vault_id], shares_to_burn) {
                Ok(withdrawal_amounts(vaults[vault_id], shares_to_burn))
            } else {
                Err(ContractError::MathOverflow)
            }
        },
    }
}

/// The assets and amounts paid out by a withdrawal, in basket order.
pub open spec fn withdrawal_amounts(v: VaultView, shares_to_burn: int) -> Seq<(Address, i128)> {
    payouts(v.allocations, v.asset_balances, shares_to_burn, v.total_shares as int).unwrap().1
}

/// The vault after `user` redeemed `shares_to_burn` shares.
pub open spec fn withdrawn(v: VaultView, user: Address, shares_to_burn: int) -> VaultView {
    VaultView {
        total_shares: (v.total_shares - shares_to_burn) as i128,
        user_shares: v.user_shares.insert(user, (v.user_shares[user] - shares_to_burn) as i128),
        user_shares_total: v.user_shares_total - shares_to_burn,
        asset_balances: payouts(
            v.allocations,
            v.asset_balances,
            shares_to_burn,
            v.total_shares as int,
        ).unwrap().0,
        ..v
    }
}

// ---------------------------------------------------------------- administration

/// The error of an operation of the vault manager, if any.
pub open spec fn manager_error(vaults: Map<Bytes32, VaultView>, vault_id: Bytes32, signers: Seq<Address>) -> Option<
    ContractError,
> {
    if !vaults.dom().contains(vault_id) {
        Some(ContractError::VaultNotFound)
    } else if !signers.contains(vaults[vault_id].config.manager) {
        Some(ContractError::Unauthorised)
    } else {
        None
    }
}

/// The error that `update_allocations` reports, if any; a stored basket too
/// large to hash is an `InvalidVaultState`.
pub open spec fn rebalance_error(
    vaults: Map<Bytes32, VaultView>,
    vault_id: Bytes32,
    allocations: Seq<AssetAllocation>,
    signers: Seq<Address>,
) -> Option<ContractError> {
    if !vaults.dom().contains(vault_id) {
        Some(ContractError::VaultNotFound)
    } else if !signers.contains(vaults[vault_id].config.rebalance_authority) {
        Some(ContractError::Unauthorised)
    } else {
        match allocation_check(allocations) {
            Err(e) => Some(e),
            Ok(_) => if vaults[vault_id].allocations.len() > MAX_BASKET_ASSETS {
                Some(ContractError::InvalidVaultState)
            } else {
                None
            },
        }
    }
}

/// The vault with new deposit and withdrawal statuses.
pub open spec fn status_set(v: VaultView, deposit_status: VaultStatus, withdrawal_status: VaultStatus) -> VaultView {
    VaultView {
        config: VaultConfig { deposit_status, withdrawal_status, ..v.config },
        ..v
    }
}

/// The record of a rebalance at `timestamp` from the basket `previous` to
/// the basket `next`: the time and the hashes of both baskets.
pub open spec fn rebalance_record(
    timestamp: u64,
    previous: Seq<AssetAllocation>,
    next: Seq<AssetAllocation>,
) -> RebalanceRecord {
    RebalanceRecord {
        timestamp,
        old_allocation_hash: basket_hash(previous),
        new_allocation_hash: basket_hash(next),
    }
}

/// The vault after a rebalance to `allocations` at `timestamp`.
pub open spec fn rebalanced(v: VaultView, allocations: Seq<AssetAllocation>, timestamp: u64) -> VaultView {
    VaultView { allocations, history: v.history.push(rebalance_record(timestamp, v.allocations, allocations)), ..v }
}

/// Claiming the accrued fees of the basket in order: every asset is listed
/// with the fee it pays, and a positive accrued fee is paid in full and reset
/// to 0 (a fee that is not positive pays 0).
pub open spec fn fee_claims(allocations: Seq<AssetAllocation>, fees: Map<Address, i128>) -> (
    Map<Address, i128>,
    Seq<(Address, i128)>,
)
    decreases allocations.len(),
{
    if allocations.len() == 0 {
        (fees, Seq::empty())
    } else {
        let state = fee_claims(allocations.drop_last(), fees);
        let asset = allocations.last().asset;
        if state.0[asset] > 0 {
            (state.0.insert(asset, 0i128), state.1.push((asset, state.0[asset])))
        } else {
            (state.0, state.1.push((asset, 0i128)))
        }
    }
}

/// What `claim_fees` returns: the assets and amounts claimed.
pub open spec fn claim_result(vaults: Map<Bytes32, VaultView>, vault_id: Bytes32, signers: Seq<Address>) -> Result<
    Seq<(Address, i128)>,
    ContractError,
> {
    match manager_error(vaults, vault_id, signers) {
        Some(e) => Err(e),
        None => Ok(fee_claims(vaults[vault_id].allocations, vaults[vault_id].accrued_fees).1),
    }
}

/// What `update_allocations` returns: the record of the rebalance.
pub open spec fn rebalance_result(
    vaults: Map<Bytes32, VaultView>,
    vault_id: Bytes32,
    allocations: Seq<AssetAllocation>,
    signers: Seq<Address>,
    timestamp: u64,
) -> Result<RebalanceRecord, ContractError> {
    match rebalance_error(vaults, vault_id, allocations, signers) {
        Some(e) => Err(e),
        None => Ok(rebalance_record(timestamp, vaults[vault_id].allocations, allocations)),
    }
}

/// The vault after its manager claimed the accrued fees.
pub open spec fn fees_claimed(v: VaultView) -> VaultView {
    VaultView { accrued_fees: fee_claims(v.allocations, v.accrued_fees).0, ..v }
}

// ---------------------------------------------------------------- lemmas

/// The basket value of non-negative balances is non-negative.
pub proof fn lemma_basket_value_nonneg(balances: Map<Address, i128>, allocations: Seq<AssetAllocation>)
    requires
        forall|k: Address| #[trigger] balances[k] >= 0,
    ensures
        basket_value(balances, allocations) >= 0,
    decreases allocations.len(),
{
    if allocations.len() > 0 {
        lemma_basket_value_nonneg(balances, allocations.drop_last());
        assert(balances[allocations.last().asset] >= 0);
    }
}

/// In a sound vault with no negative share count, a positive deposit takes a
/// fee between 0 and the amount and mints no negative number of shares.
pub proof fn lemma_deposit_shares_nonneg(v: VaultView, amount: int)
    requires
        vault_sound(v),
        v.total_shares >= 0,
        amount > 0,
    ensures
        0 <= deposit_fee(v, amount) <= amount,
        deposit_shares(v, amount) >= 0,
{
    lemma_fee_bounds(amount, v.config.management_fee_bps as int);
    lemma_basket_value_nonneg(v.asset_balances, v.allocations);
    let net = amount - deposit_fee(v, amount);
    let value = basket_value(v.asset_balances, v.allocations);
    if v.total_shares != 0 && value != 0 {
        let t = v.total_shares as int;
        assert(net * t >= 0) by (nonlinear_arith)
            requires net >= 0, t >= 0;
        lemma_div_trunc_bounds(net * t, value);
    }
}

/// Once paying out a prefix of the basket leaves `i128`, paying out every
/// longer prefix does too.
pub proof fn lemma_payouts_none_persists(
    allocations: Seq<AssetAllocation>,
    balances: Map<Address, i128>,
    shares_to_burn: int,
    total_shares: int,
    m: int,
    n: int,
)
    requires
        0 <= m <= n <= allocations.len(),
        payouts(allocations.take(m), balances, shares_to_burn, total_shares) is None,
    ensures
        payouts(allocations.take(n), balances, shares_to_burn, total_shares) is None,
    decreases n - m,
{
    if m < n {
        lemma_payouts_none_persists(allocations, balances, shares_to_burn, total_shares, m, n - 1);
        assert(allocations.take(n).drop_last() =~= allocations.take(n - 1));
    }
}

/// Redeeming at most all shares of a vault with no negative balance pays out
/// no negative amount and leaves no negative balance.
pub proof fn lemma_payouts_nonneg(
    allocations: Seq<AssetAllocation>,
    balances: Map<Address, i128>,
    shares_to_burn: int,
    total_shares: int,
)
    requires
        forall|k: Address| #[trigger] balances[k] >= 0,
        0 < shares_to_burn <= total_shares,
    ensures
        payouts(allocations, balances, shares_to_burn, total_shares) matches Some(state) ==> forall|
            k: Address,
        | #[trigger] state.0[k] >= 0,
    decreases allocations.len(),
{
    if allocations.len() > 0 {
        lemma_payouts_nonneg(allocations.drop_last(), balances, shares_to_burn, total_shares);
        match payouts(allocations.drop_last(), balances, shares_to_burn, total_shares) {
            None => {},
            Some(state) => {
                let asset = allocations.last().asset;
                let b = state.0[asset] as int;
                lemma_proportional_amount_bounds(shares_to_burn, total_shares, b);
            },
        }
    }
}

/// The part of a non-negative balance for at most all shares lies between 0
/// and the balance.
pub proof fn lemma_proportional_amount_bounds(shares: int, total_shares: int, balance: int)
    requires
        0 < shares <= total_shares,
        balance >= 0,
    ensures
        0 <= proportional_amount(shares, total_shares, balance) <= balance,
{
    assert(0 <= shares * balance <= total_shares * balance) by (nonlinear_arith)
        requires 0 < shares <= total_shares, balance >= 0;
    assert((shares * balance) / total_shares <= balance) by (nonlinear_arith)
        requires 0 <= shares * balance <= total_shares * balance, total_shares > 0;
    assert((shares * balance) / total_shares >= 0) by (nonlinear_arith)
        requires 0 <= shares * balance, total_shares > 0;
}

/// Claiming fees leaves no negative accrued fee where there was none.
pub proof fn lemma_fee_claims_nonneg(allocations: Seq<AssetAllocation>, fees: Map<Address, i128>)
    requires
        forall|k: Address| #[trigger] fees[k] >= 0,
    ensures
        forall|k: Address| #[trigger] fee_claims(allocations, fees).0[k] >= 0,
    decreases allocations.len(),
{
    if allocations.len() > 0 {
        lemma_fee_claims_nonneg(allocations.drop_last(), fees);
        let state = fee_claims(allocations.drop_last(), fees);
        let asset = allocations.last().asset;
        assert forall|k: Address| #[trigger] fee_claims(allocations, fees).0[k] >= 0 by {
            assert(state.0[k] >= 0);
        }
    }
}

/// Registering a sound vault keeps the registry sound.
pub proof fn lemma_sound_insert(vaults: Map<Bytes32, VaultView>, id: Bytes32, v: VaultView)
    requires
        registry_sound(vaults),
        vault_sound(v),
    ensures
        registry_sound(vaults.insert(id, v)),
{
    assert forall|k: Bytes32| #[trigger] vaults.insert(id, v).dom().contains(k) implies vault_sound(
        vaults.insert(id, v)[k],
    ) by {
        if k != id {
            assert(vaults.dom().contains(k));
        }
    }
}

} // verus!
